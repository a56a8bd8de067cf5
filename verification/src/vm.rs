//! The stack-based virtual machine.
//!
//! What a program does is stated by a specification interpreter:
//! [`step`] gives the effect of one instruction and [`run_from`] of a run of
//! them. The interpreter reads what the inference backend answered from a
//! log of exchanges, in which each exchange holds the request the machine
//! made and the backend's reply; the executable machine appends to that log
//! as it calls the backend and is proved to do what the interpreter says for
//! the replies it got.
use vstd::prelude::*;
use crate::heap::{TokenHeap, HeapError, HeapV, SegView, seg_index, hv_alloc, hv_append, hv_free, hv_content, hv_set, hv_available};
use crate::opcodes::{
    OpCode, OpV, op_view, ops_view, arms_view, Bytecode, BytecodeV, KernelV, bytecode_view, kernel_view, kernels_view,
    lemma_ops_view_index, lemma_arms_view_index,
};
use crate::value::{
    Value, ValueV, value_view, values_view, fields_view, vecs_view, value_text, values_eq, values_gt, truth,
    is_false, passes_check, is_decimal, int_part, frac_part, copy_value, copy_values, eq_values, gt_values,
    truth_of, falsy, passes, render,
};
use crate::lexer::digits_value;
use crate::backend::{
    InferenceBackend, Score, BackendError, ScoreV, Request, Reply, text_result, score_view, scores_view, scores_result,
};
use crate::store::{PersistentStore, InMemoryPersistentStore};
use crate::table::Table;
use crate::ast::BinOp;
use crate::codegen::binop_op;
use crate::wire::{dec_bytecode, decode_bytecode};

verus! {

// ── The backend log ──────────────────────────────────────────────────────────

pub struct Exchange {
    pub request: Request,
    pub reply: Reply,
}

/// The text answer logged at `rp` for `req`; a failure with no message when
/// the log holds no such answer there.
pub open spec fn text_reply(log: Seq<Exchange>, rp: nat, req: Request) -> Result<Seq<char>, Seq<char>> {
    if rp < log.len() && log[rp as int].request == req {
        match log[rp as int].reply {
            Reply::Text(r) => r,
            _ => Err(Seq::empty()),
        }
    } else {
        Err(Seq::empty())
    }
}

/// The scores logged at `rp` for `req` (see [`text_reply`]).
pub open spec fn scores_reply(log: Seq<Exchange>, rp: nat, req: Request) -> Result<Seq<ScoreV>, Seq<char>> {
    if rp < log.len() && log[rp as int].request == req {
        match log[rp as int].reply {
            Reply::Scores(r) => r,
            _ => Err(Seq::empty()),
        }
    } else {
        Err(Seq::empty())
    }
}

// ── Machine state ────────────────────────────────────────────────────────────

/// Everything the machine keeps from one instruction to the next, but the
/// current frame.
#[verifier::ext_equal]
pub struct MachineV {
    pub heap: HeapV,
    /// The soul identity set by `SetAgentMeta`.
    pub soul: Option<Seq<char>>,
    pub memory: Map<Seq<char>, ValueV>,
    pub lore: Map<Seq<char>, Seq<char>>,
    /// The persistent store, when one is attached.
    pub store: Option<Map<Seq<char>, Seq<char>>>,
    /// The lines printed so far.
    pub output: Seq<Seq<char>>,
    /// The vector table.
    pub vecs: Seq<Seq<ValueV>>,
    /// How many backend exchanges have been made.
    pub rp: nat,
}

/// A call frame: the operand stack, the local variables, and, while an
/// interruptible block is open, the stack and locals saved on entering it.
#[verifier::ext_equal]
pub struct FrameV {
    pub stack: Seq<ValueV>,
    pub locals: Map<Seq<char>, ValueV>,
    pub checkpoint: Option<(Seq<ValueV>, Map<Seq<char>, ValueV>)>,
}

/// Where execution goes after an instruction.
pub enum Flow {
    Next,
    Jump(usize),
    /// `Return` or `Halt`: the current run ends.
    Stop,
}

/// Why a run of the machine failed.
#[derive(Debug)]
pub enum VmError {
    /// The bytes are not a program.
    Decode,
    StackUnderflow,
    ExpectedStr,
    ExpectedCtxHandle,
    UndefinedLocal(String),
    Heap(HeapError),
    /// Every context handle has been handed out.
    HandlesExhausted,
    /// The inference backend failed, with its message.
    Backend(String),
    ConstraintViolation,
    /// A `verify` failed: the enclosing kernel is retried.
    VerifyFail,
    InvalidKernel(u16),
    DivisionByZero,
    ModuloByZero,
    /// Integer arithmetic left the range of `u64`.
    ArithmeticOverflow,
    /// Arithmetic on decimal values, which the machine does not compute.
    DecimalArithmetic,
    InvalidOperands,
    TupleIndexOutOfBounds,
    NotATupleIndex(String),
    NoSuchField(String),
    NotAStructOrTuple,
    VectorIndexNotInteger,
    VectorIndexOutOfBounds,
    NotAVector,
    /// A branch threshold that is not a decimal the machine can compare.
    BadThreshold(String),
    /// The run took more steps than it was allowed.
    OutOfFuel,
}

pub enum VmErrV {
    Decode,
    StackUnderflow,
    ExpectedStr,
    ExpectedCtxHandle,
    UndefinedLocal(Seq<char>),
    Heap(HeapError),
    HandlesExhausted,
    Backend(Seq<char>),
    ConstraintViolation,
    VerifyFail,
    InvalidKernel(u16),
    DivisionByZero,
    ModuloByZero,
    ArithmeticOverflow,
    DecimalArithmetic,
    InvalidOperands,
    TupleIndexOutOfBounds,
    NotATupleIndex(Seq<char>),
    NoSuchField(Seq<char>),
    NotAStructOrTuple,
    VectorIndexNotInteger,
    VectorIndexOutOfBounds,
    NotAVector,
    BadThreshold(Seq<char>),
    OutOfFuel,
}

pub open spec fn vm_err_view(e: VmError) -> VmErrV {
    match e {
        VmError::Decode => VmErrV::Decode,
        VmError::StackUnderflow => VmErrV::StackUnderflow,
        VmError::ExpectedStr => VmErrV::ExpectedStr,
        VmError::ExpectedCtxHandle => VmErrV::ExpectedCtxHandle,
        VmError::UndefinedLocal(n) => VmErrV::UndefinedLocal(n@),
        VmError::Heap(h) => VmErrV::Heap(h),
        VmError::HandlesExhausted => VmErrV::HandlesExhausted,
        VmError::Backend(m) => VmErrV::Backend(m@),
        VmError::ConstraintViolation => VmErrV::ConstraintViolation,
        VmError::VerifyFail => VmErrV::VerifyFail,
        VmError::InvalidKernel(k) => VmErrV::InvalidKernel(k),
        VmError::DivisionByZero => VmErrV::DivisionByZero,
        VmError::ModuloByZero => VmErrV::ModuloByZero,
        VmError::ArithmeticOverflow => VmErrV::ArithmeticOverflow,
        VmError::DecimalArithmetic => VmErrV::DecimalArithmetic,
        VmError::InvalidOperands => VmErrV::InvalidOperands,
        VmError::TupleIndexOutOfBounds => VmErrV::TupleIndexOutOfBounds,
        VmError::NotATupleIndex(f) => VmErrV::NotATupleIndex(f@),
        VmError::NoSuchField(f) => VmErrV::NoSuchField(f@),
        VmError::NotAStructOrTuple => VmErrV::NotAStructOrTuple,
        VmError::VectorIndexNotInteger => VmErrV::VectorIndexNotInteger,
        VmError::VectorIndexOutOfBounds => VmErrV::VectorIndexOutOfBounds,
        VmError::NotAVector => VmErrV::NotAVector,
        VmError::BadThreshold(t) => VmErrV::BadThreshold(t@),
        VmError::OutOfFuel => VmErrV::OutOfFuel,
    }
}

// ── Helpers of the specification ─────────────────────────────────────────────

pub open spec fn push(f: FrameV, v: ValueV) -> FrameV {
    FrameV { stack: f.stack.push(v), ..f }
}

pub open spec fn popped(f: FrameV) -> FrameV {
    FrameV { stack: f.stack.drop_last(), ..f }
}

/// How a value prints on this machine.
pub open spec fn text_of(m: MachineV, v: ValueV) -> Seq<char> {
    value_text(v, m.vecs, m.vecs.len())
}

/// The top `n` values of the stack, bottom first.
pub open spec fn top(f: FrameV, n: nat) -> Seq<ValueV> {
    f.stack.subrange(f.stack.len() - n, f.stack.len() as int)
}

pub open spec fn drop_top(f: FrameV, n: nat) -> FrameV {
    FrameV { stack: f.stack.subrange(0, f.stack.len() - n), ..f }
}

/// The text taken by `infer` and `act`: a string on top of the stack is
/// popped and used; another value is popped and gives the empty text; an
/// empty stack gives the empty text.
pub open spec fn take_text(f: FrameV) -> (Seq<char>, FrameV) {
    if f.stack.len() == 0 {
        (Seq::empty(), f)
    } else {
        match f.stack.last() {
            ValueV::Str(s) => (s, popped(f)),
            _ => (Seq::empty(), popped(f)),
        }
    }
}

/// The confidence of `label`: the first score for it, or zero.
pub open spec fn confidence(scores: Seq<ScoreV>, label: Seq<char>) -> (u64, u64)
    decreases scores.len(),
{
    if scores.len() == 0 {
        (0, 1)
    } else if scores[0].label == label {
        (scores[0].num, scores[0].den)
    } else {
        confidence(scores.drop_first(), label)
    }
}

/// `a/b >= c/d`, where a zero denominator stands for zero.
pub open spec fn ratio_ge(a: u64, b: u64, c: u64, d: u64) -> bool {
    let (a, b) = if b == 0 { (0u64, 1u64) } else { (a, b) };
    let (c, d) = if d == 0 { (0u64, 1u64) } else { (c, d) };
    a * d >= c * b
}

/// The label with the greatest confidence; of several, the last; the empty
/// text when there are no scores.
pub open spec fn winner(scores: Seq<ScoreV>) -> Seq<char> {
    if scores.len() == 0 {
        Seq::empty()
    } else {
        scores[best_index(scores)].label
    }
}

/// The index of the last of the greatest confidences.
pub open spec fn best_index(scores: Seq<ScoreV>) -> int
    decreases scores.len(),
{
    if scores.len() <= 1 {
        0
    } else {
        let b = best_index(scores.drop_last());
        if ratio_ge(scores.last().num, scores.last().den, scores[b].num, scores[b].den) {
            scores.len() - 1
        } else {
            b
        }
    }
}

pub open spec fn pow10(k: nat) -> nat
    decreases k,
{
    if k == 0 {
        1
    } else {
        10 * pow10((k - 1) as nat)
    }
}

/// A threshold as `n / 10^k`: a decimal literal with at most 19 digits after
/// the dot whose digits, read as one integer, fit in a `u64`.
pub open spec fn threshold(t: Seq<char>) -> Option<(nat, nat)> {
    if is_decimal(t) && frac_part(t).len() <= 19 && digits_value(int_part(t) + frac_part(t)) <= u64::MAX {
        Some((digits_value(int_part(t) + frac_part(t)), frac_part(t).len()))
    } else {
        None
    }
}

/// Whether the confidence `num/den` exceeds the threshold `n / 10^k`
/// (a zero denominator stands for confidence zero, which exceeds nothing).
pub open spec fn exceeds(num: u64, den: u64, n: nat, k: nat) -> bool {
    if den == 0 {
        false
    } else {
        num * pow10(k) > n * den
    }
}

/// The first case, from the `i`-th on, whose threshold its label's
/// confidence exceeds.
pub open spec fn select_case(scores: Seq<ScoreV>, cases: Seq<(Seq<char>, Seq<char>, Seq<OpV>)>, i: int) -> Result<
    Option<int>,
    VmErrV,
>
    decreases cases.len() - i,
{
    if i < 0 || i >= cases.len() {
        Ok(None)
    } else {
        let (label, t, _) = cases[i];
        match threshold(t) {
            None => Err(VmErrV::BadThreshold(t)),
            Some((n, k)) => {
                let (num, den) = confidence(scores, label);
                if exceeds(num, den, n, k) {
                    Ok(Some(i))
                } else {
                    select_case(scores, cases, i + 1)
                }
            },
        }
    }
}

/// A case is taken only when its label's confidence exceeds its threshold:
/// at a confidence equal to the threshold, or below it, selection moves on
/// to the next case (and, past the last, to the default).
pub proof fn law_case_needs_excess(
    scores: Seq<ScoreV>,
    cases: Seq<(Seq<char>, Seq<char>, Seq<OpV>)>,
    i: int,
    n: nat,
    k: nat,
)
    requires
        0 <= i < cases.len(),
        threshold(cases[i].1) == Some((n, k)),
        confidence(scores, cases[i].0).0 * pow10(k) <= n * confidence(scores, cases[i].0).1,
    ensures
        select_case(scores, cases, i) == select_case(scores, cases, i + 1),
{
}

/// The text without its leading `+`, if it has one.
pub open spec fn unsigned_digits(f: Seq<char>) -> Seq<char> {
    if f.len() > 0 && f[0] == '+' {
        f.drop_first()
    } else {
        f
    }
}

pub open spec fn all_digits(d: Seq<char>) -> bool {
    forall|k: int| 0 <= k < d.len() ==> crate::lexer::is_digit(#[trigger] d[k])
}

/// A number written in decimal digits (with an optional leading `+`) that
/// fits in a `usize`: the index of a tuple field.
pub open spec fn tuple_index(f: Seq<char>) -> Option<nat> {
    let d = unsigned_digits(f);
    if d.len() > 0 && all_digits(d) && digits_value(d) <= usize::MAX {
        Some(digits_value(d))
    } else {
        None
    }
}

/// The first field named `name`.
pub open spec fn field_of(fs: Seq<(Seq<char>, ValueV)>, name: Seq<char>) -> Option<ValueV>
    decreases fs.len(),
{
    if fs.len() == 0 {
        None
    } else if fs[0].0 == name {
        Some(fs[0].1)
    } else {
        field_of(fs.drop_first(), name)
    }
}

/// The locals of a called kernel: each parameter bound to its argument; of
/// two parameters with one name, the first.
pub open spec fn bind_params(params: Seq<Seq<char>>, args: Seq<ValueV>) -> Map<Seq<char>, ValueV>
    decreases params.len(),
{
    if params.len() == 0 {
        Map::empty()
    } else {
        bind_params(params.drop_first(), args.drop_first()).insert(params[0], args[0])
    }
}

pub open spec fn int_arith(op: OpV, a: u64, b: u64) -> Result<u64, VmErrV> {
    match op {
        OpV::Add => if a + b <= u64::MAX { Ok((a + b) as u64) } else { Err(VmErrV::ArithmeticOverflow) },
        OpV::Sub => if a >= b { Ok((a - b) as u64) } else { Err(VmErrV::ArithmeticOverflow) },
        OpV::Mul => if a * b <= u64::MAX { Ok((a * b) as u64) } else { Err(VmErrV::ArithmeticOverflow) },
        OpV::Div => if b == 0 { Err(VmErrV::DivisionByZero) } else { Ok(a / b) },
        _ => if b == 0 { Err(VmErrV::ModuloByZero) } else { Ok(a % b) },
    }
}

pub open spec fn arith(op: OpV, l: ValueV, r: ValueV) -> Result<ValueV, VmErrV> {
    match (l, r) {
        (ValueV::Int(a), ValueV::Int(b)) => match int_arith(op, a, b) {
            Ok(n) => Ok(ValueV::Int(n)),
            Err(e) => Err(e),
        },
        (ValueV::Float(_), ValueV::Float(_)) => Err(VmErrV::DecimalArithmetic),
        _ => Err(VmErrV::InvalidOperands),
    }
}

pub open spec fn compare(op: OpV, l: ValueV, r: ValueV) -> bool {
    match op {
        OpV::CmpEq => values_eq(l, r),
        OpV::CmpNotEq => !values_eq(l, r),
        OpV::CmpGt => values_gt(l, r),
        _ => values_gt(r, l),
    }
}

pub open spec fn heap_result<T>(r: Result<T, HeapError>) -> Result<Flow, VmErrV> {
    match r {
        Ok(_) => Ok(Flow::Next),
        Err(e) => Err(VmErrV::Heap(e)),
    }
}

type StepOut = (Result<Flow, VmErrV>, MachineV, FrameV);

pub open spec fn next(m: MachineV, f: FrameV) -> StepOut {
    (Ok(Flow::Next), m, f)
}

pub open spec fn fail(e: VmErrV, m: MachineV, f: FrameV) -> StepOut {
    (Err(e), m, f)
}

// ── The specification interpreter ────────────────────────────────────────────

/// Runs `ops` from `pc` until it runs off the end, stops or fails; `fuel`
/// bounds the steps. An error inside an interruptible block restores the
/// frame saved on entering it, and execution resumes after the block.
pub open spec fn run_from(
    bc: BytecodeV,
    ops: Seq<OpV>,
    pc: int,
    m: MachineV,
    f: FrameV,
    log: Seq<Exchange>,
    fuel: nat,
) -> (Result<(), VmErrV>, MachineV, FrameV)
    decreases fuel, 1int, 0int,
{
    if pc < 0 || pc >= ops.len() {
        (Ok(()), m, f)
    } else if fuel == 0 {
        (Err(VmErrV::OutOfFuel), m, f)
    } else {
        let (r, m2, f2) = step(bc, ops[pc], m, f, log, (fuel - 1) as nat);
        match r {
            Ok(Flow::Next) => run_from(bc, ops, pc + 1, m2, f2, log, (fuel - 1) as nat),
            Ok(Flow::Jump(t)) => run_from(bc, ops, t as int, m2, f2, log, (fuel - 1) as nat),
            Ok(Flow::Stop) => (Ok(()), m2, f2),
            Err(e) => match f2.checkpoint {
                Some((st, lc)) => match block_exit(ops, pc + 1, 0) {
                    Some(q) => run_from(
                        bc,
                        ops,
                        q,
                        m2,
                        FrameV { stack: st, locals: lc, checkpoint: None },
                        log,
                        (fuel - 1) as nat,
                    ),
                    None => (Err(e), m2, f2),
                },
                None => (Err(e), m2, f2),
            },
        }
    }
}

/// Where execution resumes after the interruptible block open at `p`: just
/// past the `EndInterruptible` that closes it, `depth` blocks opened since
/// being closed first; none when the block is never closed.
pub open spec fn block_exit(ops: Seq<OpV>, p: int, depth: nat) -> Option<int>
    decreases ops.len() - p,
{
    if p < 0 || p >= ops.len() {
        None
    } else {
        match ops[p] {
            OpV::EndInterruptible => if depth == 0 {
                Some(p + 1)
            } else {
                block_exit(ops, p + 1, (depth - 1) as nat)
            },
            OpV::BeginInterruptible => block_exit(ops, p + 1, depth + 1),
            _ => block_exit(ops, p + 1, depth),
        }
    }
}

/// Runs a kernel body in a fresh frame holding `locals`, up to `tries`
/// times while it fails `verify`: its value (the top of its stack, if any)
/// on success.
pub open spec fn attempts(
    bc: BytecodeV,
    body: Seq<OpV>,
    locals: Map<Seq<char>, ValueV>,
    tries: nat,
    m: MachineV,
    log: Seq<Exchange>,
    fuel: nat,
) -> (Result<Option<ValueV>, VmErrV>, MachineV)
    decreases fuel, 2int, tries,
{
    let (r, m2, f2) = run_from(
        bc,
        body,
        0,
        m,
        FrameV { stack: Seq::empty(), locals, checkpoint: None },
        log,
        fuel,
    );
    match r {
        Ok(()) => (Ok(if f2.stack.len() > 0 { Some(f2.stack.last()) } else { None }), m2),
        Err(VmErrV::VerifyFail) => if tries > 1 {
            attempts(bc, body, locals, (tries - 1) as nat, m2, log, fuel)
        } else {
            (Err(VmErrV::VerifyFail), m2)
        },
        Err(e) => (Err(e), m2),
    }
}

/// The effect of one instruction.
pub open spec fn step(bc: BytecodeV, op: OpV, m: MachineV, f: FrameV, log: Seq<Exchange>, fuel: nat) -> StepOut
    decreases fuel, 3int, 0int,
{
    let n = f.stack.len();
    match op {
        OpV::PushStr(s) => next(m, push(f, ValueV::Str(s))),
        OpV::PushInt(k) => next(m, push(f, ValueV::Int(k))),
        OpV::PushFloat(s) => next(m, push(f, ValueV::Float(s))),
        OpV::PushBool(b) => next(m, push(f, ValueV::Bool(b))),
        OpV::StoreLocal(name) => if n == 0 {
            fail(VmErrV::StackUnderflow, m, f)
        } else {
            next(m, FrameV { locals: f.locals.insert(name, f.stack.last()), ..popped(f) })
        },
        OpV::LoadLocal(name) => if f.locals.contains_key(name) {
            next(m, push(f, f.locals[name]))
        } else if m.memory.contains_key(name) {
            next(m, push(f, m.memory[name]))
        } else {
            fail(VmErrV::UndefinedLocal(name), m, f)
        },
        OpV::CtxAlloc(t) => if t as usize <= hv_available(m.heap) && m.heap.next == u32::MAX {
            fail(VmErrV::HandlesExhausted, m, f)
        } else {
            let (h2, r) = hv_alloc(m.heap, t as usize);
            match r {
                Ok(id) => next(MachineV { heap: h2, ..m }, push(f, ValueV::CtxHandle(id))),
                Err(e) => fail(VmErrV::Heap(e), m, f),
            }
        },
        OpV::CtxFreeStack => if n == 0 {
            fail(VmErrV::StackUnderflow, m, f)
        } else {
            match f.stack.last() {
                ValueV::CtxHandle(id) => {
                    let (h2, r) = hv_free(m.heap, id);
                    (heap_result(r), MachineV { heap: h2, ..m }, popped(f))
                },
                _ => fail(VmErrV::ExpectedCtxHandle, m, popped(f)),
            }
        },
        OpV::CtxAppendStack => if n == 0 {
            fail(VmErrV::StackUnderflow, m, f)
        } else {
            match f.stack.last() {
                ValueV::Str(text) => {
                    let f1 = popped(f);
                    if f1.stack.len() == 0 {
                        fail(VmErrV::StackUnderflow, m, f1)
                    } else {
                        match f1.stack.last() {
                            ValueV::CtxHandle(id) => {
                                let (h2, r) = hv_append(m.heap, id, text);
                                (heap_result(r), MachineV { heap: h2, ..m }, popped(f1))
                            },
                            _ => fail(VmErrV::ExpectedCtxHandle, m, popped(f1)),
                        }
                    }
                },
                _ => fail(VmErrV::ExpectedStr, m, popped(f)),
            }
        },
        OpV::CtxCompress => if n == 0 {
            fail(VmErrV::StackUnderflow, m, f)
        } else {
            match f.stack.last() {
                ValueV::CtxHandle(id) => match hv_content(m.heap, id) {
                    Err(e) => fail(VmErrV::Heap(e), m, popped(f)),
                    Ok(content) => {
                        let m1 = MachineV { rp: m.rp + 1, ..m };
                        match text_reply(log, m.rp, Request::Compress(content)) {
                            Err(msg) => fail(VmErrV::Backend(msg), m1, popped(f)),
                            Ok(c) => {
                                let (h2, r) = hv_set(m.heap, id, c);
                                (heap_result(r), MachineV { heap: h2, ..m1 }, popped(f))
                            },
                        }
                    },
                },
                _ => fail(VmErrV::ExpectedCtxHandle, m, popped(f)),
            }
        },
        OpV::CtxShare => if n == 0 {
            fail(VmErrV::StackUnderflow, m, f)
        } else {
            next(m, push(f, f.stack.last()))
        },
        OpV::CtxResize(_, _) | OpV::Reason(_) | OpV::RegisterSkill(_) | OpV::BeginConstraint(_)
        | OpV::EndConstraint => next(m, f),
        OpV::ConstraintVerify => if n == 0 {
            fail(VmErrV::StackUnderflow, m, f)
        } else if passes_check(f.stack.last()) {
            next(m, popped(f))
        } else {
            fail(VmErrV::ConstraintViolation, m, popped(f))
        },
        OpV::PersistLoad => if n == 0 {
            fail(VmErrV::StackUnderflow, m, f)
        } else {
            match f.stack.last() {
                ValueV::Str(key) => {
                    let v = match m.store {
                        Some(s) => if s.contains_key(key) {
                            s[key]
                        } else {
                            Seq::empty()
                        },
                        None => Seq::empty(),
                    };
                    next(m, push(popped(f), ValueV::Str(v)))
                },
                _ => fail(VmErrV::ExpectedStr, m, popped(f)),
            }
        },
        OpV::PersistSave => if n == 0 {
            fail(VmErrV::StackUnderflow, m, f)
        } else {
            match f.stack.last() {
                ValueV::Str(value) => if n == 1 {
                    fail(VmErrV::StackUnderflow, m, popped(f))
                } else {
                    match f.stack[n - 2] {
                        ValueV::Str(key) => next(
                            MachineV {
                                store: match m.store {
                                    Some(s) => Some(s.insert(key, value)),
                                    None => None,
                                },
                                ..m
                            },
                            drop_top(f, 2),
                        ),
                        _ => fail(VmErrV::ExpectedStr, m, drop_top(f, 2)),
                    }
                },
                _ => fail(VmErrV::ExpectedStr, m, popped(f)),
            }
        },
        OpV::PersistDelete => if n == 0 {
            fail(VmErrV::StackUnderflow, m, f)
        } else {
            match f.stack.last() {
                ValueV::Str(key) => next(
                    MachineV {
                        store: match m.store {
                            Some(s) => Some(s.remove(key)),
                            None => None,
                        },
                        ..m
                    },
                    popped(f),
                ),
                _ => fail(VmErrV::ExpectedStr, m, popped(f)),
            }
        },
        OpV::Println => if n == 0 {
            fail(VmErrV::StackUnderflow, m, f)
        } else {
            next(MachineV { output: m.output.push(text_of(m, f.stack.last())), ..m }, popped(f))
        },
        OpV::Return | OpV::Halt => (Ok(Flow::Stop), m, f),
        OpV::Jump(t) => (Ok(Flow::Jump(t)), m, f),
        OpV::JumpIfFalse(t) => if n == 0 {
            fail(VmErrV::StackUnderflow, m, f)
        } else if is_false(f.stack.last()) {
            (Ok(Flow::Jump(t)), m, popped(f))
        } else {
            next(m, popped(f))
        },
        OpV::CallKernel(idx) => if idx >= bc.kernels.len() {
            fail(VmErrV::InvalidKernel(idx), m, f)
        } else {
            let k = bc.kernels[idx as int];
            let np = k.params.len();
            if n < np {
                fail(VmErrV::StackUnderflow, m, f)
            } else {
                let locals = bind_params(k.params, top(f, np));
                let f1 = drop_top(f, np);
                let (r, m2) = attempts(bc, k.body, locals, (k.max_retries + 1) as nat, m, log, fuel);
                match r {
                    Ok(Some(v)) => next(m2, push(f1, v)),
                    Ok(None) => next(m2, f1),
                    Err(e) => fail(e, m2, f1),
                }
            }
        },
        OpV::InferClassify(labels) => {
            let (prompt, f1) = take_text(f);
            let m1 = MachineV { rp: m.rp + 1, ..m };
            match scores_reply(log, m.rp, Request::Classify(prompt, labels)) {
                Err(msg) => fail(VmErrV::Backend(msg), m1, f1),
                Ok(scores) => next(m1, push(f1, ValueV::Str(winner(scores)))),
            }
        },
        OpV::BranchClassify { var, cases, default } => {
            let labels = cases.map_values(|c: (Seq<char>, Seq<char>, Seq<OpV>)| c.0);
            let prompt = if f.locals.contains_key(var) {
                text_of(m, f.locals[var])
            } else {
                var
            };
            let m1 = MachineV { rp: m.rp + 1, ..m };
            match scores_reply(log, m.rp, Request::Classify(prompt, labels)) {
                Err(msg) => fail(VmErrV::Backend(msg), m1, f),
                Ok(scores) => {
                    let f1 = if n > 0 {
                        popped(f)
                    } else {
                        f
                    };
                    match select_case(scores, cases, 0) {
                        Err(e) => fail(e, m1, f1),
                        Ok(sel) => {
                            let body = match sel {
                                Some(i) => cases[i].2,
                                None => default,
                            };
                            let (r, m2, f2) = run_from(bc, body, 0, m1, f1, log, fuel);
                            match r {
                                Ok(()) => next(m2, f2),
                                Err(e) => fail(e, m2, f2),
                            }
                        },
                    }
                },
            }
        },
        OpV::Observe => next(
            m,
            if n > 0 {
                popped(f)
            } else {
                f
            },
        ),
        OpV::Act => {
            let (payload, f1) = take_text(f);
            let m1 = MachineV { rp: m.rp + 1, ..m };
            match text_reply(log, m.rp, Request::Act(payload)) {
                Err(msg) => fail(VmErrV::Backend(msg), m1, f1),
                Ok(_) => next(m1, f1),
            }
        },
        OpV::VerifyStep => if n == 0 {
            fail(VmErrV::StackUnderflow, m, f)
        } else if passes_check(f.stack.last()) {
            next(m, popped(f))
        } else {
            fail(VmErrV::VerifyFail, m, popped(f))
        },
        OpV::CmpEq | OpV::CmpNotEq | OpV::CmpGt | OpV::CmpLt => if n < 2 {
            fail(VmErrV::StackUnderflow, m, f)
        } else {
            let b = compare(op, f.stack[n - 2], f.stack[n - 1]);
            next(m, push(drop_top(f, 2), ValueV::Int(if b { 1 } else { 0 })))
        },
        OpV::Add | OpV::Sub | OpV::Mul | OpV::Div | OpV::Mod => if n < 2 {
            fail(VmErrV::StackUnderflow, m, f)
        } else {
            match arith(op, f.stack[n - 2], f.stack[n - 1]) {
                Ok(v) => next(m, push(drop_top(f, 2), v)),
                Err(e) => fail(e, m, drop_top(f, 2)),
            }
        },
        OpV::And | OpV::Or => if n < 2 {
            fail(VmErrV::StackUnderflow, m, f)
        } else {
            let (a, b) = (truth(f.stack[n - 2]), truth(f.stack[n - 1]));
            next(
                m,
                push(
                    drop_top(f, 2),
                    ValueV::Bool(
                        if op is And {
                            a && b
                        } else {
                            a || b
                        },
                    ),
                ),
            )
        },
        OpV::BeginInterruptible => next(m, FrameV { checkpoint: Some((f.stack, f.locals)), ..f }),
        OpV::EndInterruptible => next(m, FrameV { checkpoint: None, ..f }),
        OpV::SetAgentMeta(s) => next(MachineV { soul: Some(s), ..m }, f),
        OpV::CtxAppendLiteral(s) => if f.locals.contains_key("ctx"@) && f.locals["ctx"@] is CtxHandle {
            let (h2, r) = hv_append(m.heap, f.locals["ctx"@]->CtxHandle_0, s);
            (heap_result(r), MachineV { heap: h2, ..m }, f)
        } else {
            next(m, f)
        },
        OpV::AllocMemorySlot(name) | OpV::StoreMemory(name) => if n == 0 {
            fail(VmErrV::StackUnderflow, m, f)
        } else {
            next(MachineV { memory: m.memory.insert(name, f.stack.last()), ..m }, popped(f))
        },
        OpV::LoadMemory(name) => next(
            m,
            push(
                f,
                if m.memory.contains_key(name) {
                    m.memory[name]
                } else {
                    ValueV::Str(Seq::empty())
                },
            ),
        ),
        OpV::CallOracle(name, k) => if n < k {
            fail(VmErrV::StackUnderflow, m, f)
        } else {
            let args = top(f, k as nat).map_values(|v: ValueV| text_of(m, v));
            let f1 = drop_top(f, k as nat);
            let m1 = MachineV { rp: m.rp + 1, ..m };
            match text_reply(log, m.rp, Request::Oracle(name, args)) {
                Err(msg) => fail(VmErrV::Backend(msg), m1, f1),
                Ok(r) => next(m1, push(f1, ValueV::Str(r))),
            }
        },
        OpV::StoreLore(a, b) => next(MachineV { lore: m.lore.insert(a, b), ..m }, f),
        OpV::LoadLore(name) => next(
            m,
            push(
                f,
                ValueV::Str(
                    if m.lore.contains_key(name) {
                        m.lore[name]
                    } else {
                        Seq::empty()
                    },
                ),
            ),
        ),
        OpV::TuplePack(k) => if n < k {
            fail(VmErrV::StackUnderflow, m, f)
        } else {
            next(m, push(drop_top(f, k as nat), ValueV::Tuple(top(f, k as nat))))
        },
        OpV::VecNew(k) => if n < k {
            fail(VmErrV::StackUnderflow, m, f)
        } else {
            next(
                MachineV { vecs: m.vecs.push(top(f, k as nat)), ..m },
                push(drop_top(f, k as nat), ValueV::Vec(m.vecs.len() as usize)),
            )
        },
        OpV::VecGet => if n < 2 {
            fail(VmErrV::StackUnderflow, m, f)
        } else {
            let f1 = drop_top(f, 2);
            match f.stack[n - 2] {
                ValueV::Vec(h) => if h >= m.vecs.len() {
                    fail(VmErrV::NotAVector, m, f1)
                } else {
                    match f.stack[n - 1] {
                        ValueV::Int(i) => if i < m.vecs[h as int].len() {
                            next(m, push(f1, m.vecs[h as int][i as int]))
                        } else {
                            fail(VmErrV::VectorIndexOutOfBounds, m, f1)
                        },
                        _ => fail(VmErrV::VectorIndexNotInteger, m, f1),
                    }
                },
                _ => fail(VmErrV::NotAVector, m, f1),
            }
        },
        OpV::VecSet => if n < 3 {
            fail(VmErrV::StackUnderflow, m, f)
        } else {
            let f1 = drop_top(f, 3);
            match f.stack[n - 3] {
                ValueV::Vec(h) => if h >= m.vecs.len() {
                    fail(VmErrV::NotAVector, m, f1)
                } else {
                    match f.stack[n - 2] {
                        ValueV::Int(i) => if i < m.vecs[h as int].len() {
                            next(
                                MachineV {
                                    vecs: m.vecs.update(h as int, m.vecs[h as int].update(i as int, f.stack[n - 1])),
                                    ..m
                                },
                                f1,
                            )
                        } else {
                            fail(VmErrV::VectorIndexOutOfBounds, m, f1)
                        },
                        _ => fail(VmErrV::VectorIndexNotInteger, m, f1),
                    }
                },
                _ => fail(VmErrV::NotAVector, m, f1),
            }
        },
        OpV::VecLen => if n == 0 {
            fail(VmErrV::StackUnderflow, m, f)
        } else {
            match f.stack.last() {
                ValueV::Vec(h) => if h >= m.vecs.len() {
                    fail(VmErrV::NotAVector, m, popped(f))
                } else {
                    next(m, push(popped(f), ValueV::Int(m.vecs[h as int].len() as u64)))
                },
                _ => fail(VmErrV::NotAVector, m, popped(f)),
            }
        },
        OpV::VecPush => if n < 2 {
            fail(VmErrV::StackUnderflow, m, f)
        } else {
            match f.stack[n - 2] {
                ValueV::Vec(h) => if h >= m.vecs.len() {
                    fail(VmErrV::NotAVector, m, drop_top(f, 2))
                } else {
                    next(
                        MachineV { vecs: m.vecs.update(h as int, m.vecs[h as int].push(f.stack[n - 1])), ..m },
                        drop_top(f, 2),
                    )
                },
                _ => fail(VmErrV::NotAVector, m, drop_top(f, 2)),
            }
        },
        OpV::FieldAccess(field) => if n == 0 {
            fail(VmErrV::StackUnderflow, m, f)
        } else {
            let f1 = popped(f);
            match f.stack.last() {
                ValueV::Tuple(items) => match tuple_index(field) {
                    Some(i) => if i < items.len() {
                        next(m, push(f1, items[i as int]))
                    } else {
                        fail(VmErrV::TupleIndexOutOfBounds, m, f1)
                    },
                    None => fail(VmErrV::NotATupleIndex(field), m, f1),
                },
                ValueV::Struct { fields, .. } => match field_of(fields, field) {
                    Some(v) => next(m, push(f1, v)),
                    None => fail(VmErrV::NoSuchField(field), m, f1),
                },
                _ => fail(VmErrV::NotAStructOrTuple, m, f1),
            }
        },
        OpV::StructConstruct { name, field_names } => {
            let k = field_names.len();
            if n < k {
                fail(VmErrV::StackUnderflow, m, f)
            } else {
                let vals = top(f, k);
                let fields = Seq::new(k, |i: int| (field_names[i], vals[i]));
                next(m, push(drop_top(f, k), ValueV::Struct { name, fields }))
            }
        },
        OpV::EnumVariant { variant, payload } => if payload {
            if n == 0 {
                fail(VmErrV::StackUnderflow, m, f)
            } else {
                next(
                    m,
                    push(popped(f), ValueV::EnumVariant { variant, payload: Some(Box::new(f.stack.last())) }),
                )
            }
        } else {
            next(m, push(f, ValueV::EnumVariant { variant, payload: None }))
        },
    }
}

// ── Executable machine ───────────────────────────────────────────────────────

pub open spec fn locals_view(m: Map<Seq<char>, Value>) -> Map<Seq<char>, ValueV> {
    m.map_values(|v: Value| value_view(v))
}

pub open spec fn lore_view(m: Map<Seq<char>, String>) -> Map<Seq<char>, Seq<char>> {
    m.map_values(|s: String| s@)
}

pub open spec fn texts_view(s: Seq<String>) -> Seq<Seq<char>> {
    s.map_values(|x: String| x@)
}

/// Bindings with the same names and values (by view) denote the same locals.
proof fn lemma_locals_copy(a: Seq<(String, Value)>, b: Seq<(String, Value)>)
    requires
        a.len() == b.len(),
        forall|i: int| 0 <= i < a.len() ==> #[trigger] a[i].0@ == b[i].0@ && value_view(a[i].1) == value_view(b[i].1),
    ensures
        locals_view(crate::table::bindings_map(a)) == locals_view(crate::table::bindings_map(b)),
    decreases a.len(),
{
    if a.len() > 0 {
        lemma_locals_copy(a.drop_last(), b.drop_last());
        let ma = crate::table::bindings_map(a.drop_last());
        let mb = crate::table::bindings_map(b.drop_last());
        assert(a.last().0@ == b.last().0@);
        assert(locals_view(ma.insert(a.last().0@, a.last().1)) =~= locals_view(ma).insert(
            a.last().0@,
            value_view(a.last().1),
        ));
        assert(locals_view(mb.insert(b.last().0@, b.last().1)) =~= locals_view(mb).insert(
            b.last().0@,
            value_view(b.last().1),
        ));
    } else {
        assert(locals_view(crate::table::bindings_map(a)) =~= locals_view(crate::table::bindings_map(b)));
    }
}

/// A copy of the locals.
fn copy_locals(t: &Table<Value>) -> (r: Table<Value>)
    ensures
        locals_view(r.view()) == locals_view(t.view()),
{
    let es = t.entries();
    let mut out: Vec<(String, Value)> = Vec::new();
    let mut i: usize = 0;
    while i < es.len()
        invariant
            i <= es.len(),
            es@ == t.bindings(),
            out.len() == i,
            forall|j: int| 0 <= j < i ==> #[trigger] out@[j].0@ == es@[j].0@ && value_view(out@[j].1) == value_view(
                es@[j].1,
            ),
        decreases es.len() - i,
    {
        let k = es[i].0.clone();
        let v = copy_value(&es[i].1);
        out.push((k, v));
        i = i + 1;
    }
    let r = Table::from_entries(out);
    proof {
        lemma_locals_copy(r.bindings(), t.bindings());
    }
    r
}

/// Where execution resumes after the interruptible block open before
/// `start` (see [`block_exit`]).
fn block_exit_of(ops: &Vec<OpCode>, start: usize) -> (r: Option<usize>)
    ensures
        match r {
            Some(q) => block_exit(ops_view(ops@), start as int, 0) == Some(q as int),
            None => block_exit(ops_view(ops@), start as int, 0) is None,
        },
{
    let ghost opsv = ops_view(ops@);
    proof {
        lemma_ops_view_index(ops@);
    }
    let mut p: usize = start;
    let mut depth: usize = 0;
    while p < ops.len()
        invariant
            opsv == ops_view(ops@),
            opsv.len() == ops.len(),
            forall|i: int| 0 <= i < ops.len() ==> #[trigger] opsv[i] == op_view(ops@[i]),
            start <= p,
            depth <= p - start,
            block_exit(opsv, start as int, 0) == block_exit(opsv, p as int, depth as nat),
        decreases ops.len() - p,
    {
        match &ops[p] {
            OpCode::EndInterruptible => {
                if depth == 0 {
                    return Some(p + 1);
                }
                depth = depth - 1;
            },
            OpCode::BeginInterruptible => {
                depth = depth + 1;
            },
            _ => {},
        }
        p = p + 1;
    }
    None
}

/// A call frame.
pub struct Frame {
    stack: Vec<Value>,
    locals: Table<Value>,
    checkpoint: Option<(Vec<Value>, Table<Value>)>,
}

impl Frame {
    pub closed spec fn fv(&self) -> FrameV {
        FrameV {
            stack: values_view(self.stack@),
            locals: locals_view(self.locals.view()),
            checkpoint: match self.checkpoint {
                Some((st, lc)) => Some((values_view(st@), locals_view(lc.view()))),
                None => None,
            },
        }
    }

    /// Saves the stack and locals as the checkpoint of an interruptible block.
    fn save_checkpoint(&mut self)
        ensures
            final(self).fv() == (FrameV { checkpoint: Some((old(self).fv().stack, old(self).fv().locals)), ..old(self).fv() }),
    {
        let st = copy_values(&self.stack);
        let lc = copy_locals(&self.locals);
        self.checkpoint = Some((st, lc));
    }

    /// Drops the checkpoint.
    fn clear_checkpoint(&mut self)
        ensures
            final(self).fv() == (FrameV { checkpoint: None, ..old(self).fv() }),
    {
        self.checkpoint = None;
    }

    /// Whether an interruptible block is open.
    fn has_checkpoint(&self) -> (r: bool)
        ensures
            r == self.fv().checkpoint is Some,
    {
        self.checkpoint.is_some()
    }

    /// Goes back to the checkpoint, which is then dropped.
    fn restore_checkpoint(&mut self)
        requires
            old(self).fv().checkpoint is Some,
        ensures
            old(self).fv().checkpoint == Some((final(self).fv().stack, final(self).fv().locals)),
            final(self).fv().checkpoint is None,
    {
        let mut cp: Option<(Vec<Value>, Table<Value>)> = None;
        std::mem::swap(&mut cp, &mut self.checkpoint);
        match cp {
            Some((st, lc)) => {
                self.stack = st;
                self.locals = lc;
            },
            None => {},
        }
    }

    /// An empty frame.
    pub fn new() -> (r: Self)
        ensures
            r.fv() == (FrameV { stack: Seq::empty(), locals: Map::empty(), checkpoint: None }),
    {
        let r = Frame { stack: Vec::new(), locals: Table::new(), checkpoint: None };
        assert(values_view(r.stack@) =~= Seq::<ValueV>::empty());
        assert(locals_view(r.locals.view()) =~= Map::<Seq<char>, ValueV>::empty());
        r
    }

    fn len(&self) -> (n: usize)
        ensures
            n == self.fv().stack.len(),
    {
        proof {
            crate::value::lemma_values_view_index(self.stack@);
        }
        self.stack.len()
    }

    fn push(&mut self, v: Value)
        ensures
            final(self).fv() == push(old(self).fv(), value_view(v)),
    {
        proof {
            crate::value::lemma_values_view_index(self.stack@);
        }
        self.stack.push(v);
        proof {
            crate::value::lemma_values_view_index(self.stack@);
            assert(values_view(self.stack@) =~= values_view(old(self).stack@).push(value_view(v)));
        }
    }

    fn pop(&mut self) -> (r: Option<Value>)
        ensures
            match r {
                Some(v) => old(self).fv().stack.len() > 0 && value_view(v) == old(self).fv().stack.last()
                    && final(self).fv() == popped(old(self).fv()),
                None => old(self).fv().stack.len() == 0 && final(self).fv() == old(self).fv(),
            },
    {
        proof {
            crate::value::lemma_values_view_index(self.stack@);
        }
        let r = self.stack.pop();
        proof {
            crate::value::lemma_values_view_index(self.stack@);
            if r is Some {
                assert(values_view(self.stack@) =~= values_view(old(self).stack@).drop_last());
            }
        }
        r
    }

    /// The top `k` values, bottom first, taken off the stack.
    fn take_top(&mut self, k: usize) -> (r: Vec<Value>)
        requires
            k <= old(self).fv().stack.len(),
        ensures
            values_view(r@) == top(old(self).fv(), k as nat),
            final(self).fv() == drop_top(old(self).fv(), k as nat),
    {
        proof {
            crate::value::lemma_values_view_index(self.stack@);
        }
        let at = self.stack.len() - k;
        let r = self.stack.split_off(at);
        proof {
            crate::value::lemma_values_view_index(self.stack@);
            crate::value::lemma_values_view_index(r@);
            let fv0 = old(self).fv();
            assert(values_view(r@) =~= top(fv0, k as nat));
            assert(values_view(self.stack@) =~= fv0.stack.subrange(0, fv0.stack.len() - k));
        }
        r
    }

    /// The top value, left on the stack.
    fn peek(&self) -> (r: Option<&Value>)
        ensures
            match r {
                Some(v) => self.fv().stack.len() > 0 && value_view(*v) == self.fv().stack.last(),
                None => self.fv().stack.len() == 0,
            },
    {
        proof {
            crate::value::lemma_values_view_index(self.stack@);
        }
        if self.stack.len() == 0 {
            None
        } else {
            Some(&self.stack[self.stack.len() - 1])
        }
    }

    /// The value `d` places below the top, left on the stack.
    fn below(&self, d: usize) -> (r: &Value)
        requires
            d < self.fv().stack.len(),
        ensures
            value_view(*r) == self.fv().stack[self.fv().stack.len() - 1 - d],
    {
        proof {
            crate::value::lemma_values_view_index(self.stack@);
        }
        &self.stack[self.stack.len() - 1 - d]
    }

    fn local(&self, name: &str) -> (r: Option<&Value>)
        ensures
            match r {
                Some(v) => self.fv().locals.contains_key(name@) && value_view(*v) == self.fv().locals[name@],
                None => !self.fv().locals.contains_key(name@),
            },
    {
        self.locals.get(name)
    }

    fn set_local(&mut self, name: String, v: Value)
        ensures
            final(self).fv() == (FrameV {
                locals: old(self).fv().locals.insert(name@, value_view(v)),
                ..old(self).fv()
            }),
    {
        let ghost vv = value_view(v);
        self.locals.insert(name, v);
        assert(locals_view(self.locals.view()) =~= locals_view(old(self).locals.view()).insert(name@, vv));
    }
}

/// The virtual machine: a token heap, an inference backend, memory slots,
/// lore, an optional persistent store, the printed lines and the vector table.
pub struct Vm<B, S> {
    heap: TokenHeap,
    backend: B,
    soul_meta: Option<String>,
    memory: Table<Value>,
    lore: Table<String>,
    persistent: Option<S>,
    output: Vec<String>,
    vectors: Vec<Vec<Value>>,
    log: Ghost<Seq<Exchange>>,
}

impl<B: InferenceBackend, S: PersistentStore> Vm<B, S> {
    pub closed spec fn mv(&self) -> MachineV {
        MachineV {
            heap: self.heap.hv(),
            soul: match self.soul_meta {
                Some(s) => Some(s@),
                None => None,
            },
            memory: locals_view(self.memory.view()),
            lore: lore_view(self.lore.view()),
            store: match self.persistent {
                Some(s) => Some(s.contents()),
                None => None,
            },
            output: texts_view(self.output@),
            vecs: vecs_view(self.vectors@),
            rp: self.log@.len(),
        }
    }

    /// The exchanges with the backend so far.
    pub closed spec fn log(&self) -> Seq<Exchange> {
        self.log@
    }

    /// The backend the machine asks.
    pub closed spec fn held_backend(&self) -> B {
        self.backend
    }

    /// Well-formedness: the heap is well formed, and the backend answered
    /// every exchange in the log as logged.
    pub closed spec fn wf(&self) -> bool {
        &&& self.heap.wf()
        &&& forall|i: int|
            #![trigger self.log@[i]]
            0 <= i < self.log@.len() ==> self.backend.answered(self.log@[i].request, self.log@[i].reply)
    }

    /// Attaches a persistent store for `memory_load`, `memory_save` and
    /// `memory_delete`.
    pub fn with_persistent_store<S2: PersistentStore>(self, store: S2) -> (r: Vm<B, S2>)
        requires
            self.wf(),
        ensures
            r.wf(),
            r.mv() == (MachineV { store: Some(store.contents()), ..self.mv() }),
            r.log() == self.log(),
    {
        Vm {
            heap: self.heap,
            backend: self.backend,
            soul_meta: self.soul_meta,
            memory: self.memory,
            lore: self.lore,
            persistent: Some(store),
            output: self.output,
            vectors: self.vectors,
            log: self.log,
        }
    }

    /// The lines printed so far.
    pub fn output(&self) -> (r: &Vec<String>)
        ensures
            texts_view(r@) == self.mv().output,
    {
        &self.output
    }

    /// The token heap.
    pub fn heap(&self) -> (r: &TokenHeap)
        ensures
            r.hv() == self.mv().heap,
            self.wf() ==> r.wf(),
    {
        &self.heap
    }

    /// The persistent store, when one is attached.
    pub fn store(&self) -> (r: &Option<S>)
        ensures
            match *r {
                Some(s) => self.mv().store == Some(s.contents()),
                None => self.mv().store is None,
            },
    {
        &self.persistent
    }
}

impl<B: InferenceBackend> Vm<B, InMemoryPersistentStore> {
    /// A machine with a heap of `heap_capacity` tokens, the given backend and
    /// no persistent store.
    pub fn new(heap_capacity: usize, backend: B) -> (r: Self)
        ensures
            r.wf(),
            r.mv() == (MachineV {
                heap: HeapV { segs: Seq::empty(), next: 0, cap: heap_capacity as nat, used: 0 },
                soul: None,
                memory: Map::empty(),
                lore: Map::empty(),
                store: None,
                output: Seq::empty(),
                vecs: Seq::empty(),
                rp: 0,
            }),
            r.log() == Seq::<Exchange>::empty(),
    {
        let r = Vm {
            heap: TokenHeap::new(heap_capacity),
            backend,
            soul_meta: None,
            memory: Table::new(),
            lore: Table::new(),
            persistent: None,
            output: Vec::new(),
            vectors: Vec::new(),
            log: Ghost(Seq::empty()),
        };
        assert(locals_view(r.memory.view()) =~= Map::<Seq<char>, ValueV>::empty());
        assert(lore_view(r.lore.view()) =~= Map::<Seq<char>, Seq<char>>::empty());
        assert(texts_view(r.output@) =~= Seq::<Seq<char>>::empty());
        assert(vecs_view(r.vectors@) =~= Seq::<Seq<ValueV>>::empty());
        r
    }
}

pub open spec fn flow_view(r: Result<Flow, VmError>) -> Result<Flow, VmErrV> {
    match r {
        Ok(f) => Ok(f),
        Err(e) => Err(vm_err_view(e)),
    }
}

/// The instructions that touch neither the heap, the backend, the vector
/// table nor another run.
pub open spec fn is_plain(op: OpV) -> bool {
    op is PushStr || op is PushInt || op is PushFloat || op is PushBool || op is StoreLocal || op is LoadLocal
        || op is CtxShare || op is CtxResize || op is Reason || op is RegisterSkill || op is BeginConstraint
        || op is EndConstraint || op is ConstraintVerify || op is Return || op is Halt || op is Jump
        || op is JumpIfFalse || op is Observe || op is VerifyStep || op is BeginInterruptible
        || op is EndInterruptible || op is SetAgentMeta || op is AllocMemorySlot || op is StoreMemory
        || op is LoadMemory || op is StoreLore || op is LoadLore || op is EnumVariant
}

impl<B: InferenceBackend, S: PersistentStore> Vm<B, S> {
    fn step_plain(&mut self, op: &OpCode, frame: &mut Frame) -> (r: Result<Flow, VmError>)
        requires
            old(self).wf(),
            is_plain(op_view(*op)),
        ensures
            final(self).wf(),
            final(self).log() == old(self).log(),
            forall|bc: BytecodeV, log: Seq<Exchange>, fuel: nat|
                #[trigger] step(bc, op_view(*op), old(self).mv(), old(frame).fv(), log, fuel) == (
                flow_view(r),
                final(self).mv(),
                final(frame).fv(),
            ),
    {
        let ghost m0 = self.mv();
        let ghost f0 = frame.fv();
        match op {
            OpCode::PushStr(s) => {
                frame.push(Value::Str(s.clone()));
                Ok(Flow::Next)
            },
            OpCode::PushInt(n) => {
                frame.push(Value::Int(*n));
                Ok(Flow::Next)
            },
            OpCode::PushFloat(s) => {
                frame.push(Value::Float(s.clone()));
                Ok(Flow::Next)
            },
            OpCode::PushBool(b) => {
                frame.push(Value::Bool(*b));
                Ok(Flow::Next)
            },
            OpCode::StoreLocal(name) => match frame.pop() {
                Some(v) => {
                    frame.set_local(name.clone(), v);
                    Ok(Flow::Next)
                },
                None => Err(VmError::StackUnderflow),
            },
            OpCode::LoadLocal(name) => {
                let v = match frame.local(name.as_str()) {
                    Some(v) => copy_value(v),
                    None => match self.memory.get(name.as_str()) {
                        Some(v) => copy_value(v),
                        None => {
                            return Err(VmError::UndefinedLocal(name.clone()));
                        },
                    },
                };
                frame.push(v);
                Ok(Flow::Next)
            },
            OpCode::CtxShare => {
                let v = match frame.peek() {
                    Some(v) => copy_value(v),
                    None => {
                        return Err(VmError::StackUnderflow);
                    },
                };
                frame.push(v);
                Ok(Flow::Next)
            },
            OpCode::CtxResize(_, _) | OpCode::Reason(_) | OpCode::RegisterSkill(_) | OpCode::BeginConstraint(_)
            | OpCode::EndConstraint => Ok(Flow::Next),
            OpCode::ConstraintVerify => match frame.pop() {
                Some(v) => if passes(&v) {
                    Ok(Flow::Next)
                } else {
                    Err(VmError::ConstraintViolation)
                },
                None => Err(VmError::StackUnderflow),
            },
            OpCode::VerifyStep => match frame.pop() {
                Some(v) => if passes(&v) {
                    Ok(Flow::Next)
                } else {
                    Err(VmError::VerifyFail)
                },
                None => Err(VmError::StackUnderflow),
            },
            OpCode::Return | OpCode::Halt => Ok(Flow::Stop),
            OpCode::Jump(t) => Ok(Flow::Jump(*t)),
            OpCode::JumpIfFalse(t) => match frame.pop() {
                Some(v) => if falsy(&v) {
                    Ok(Flow::Jump(*t))
                } else {
                    Ok(Flow::Next)
                },
                None => Err(VmError::StackUnderflow),
            },
            OpCode::Observe => {
                let _ = frame.pop();
                Ok(Flow::Next)
            },
            OpCode::BeginInterruptible => {
                frame.save_checkpoint();
                Ok(Flow::Next)
            },
            OpCode::EndInterruptible => {
                frame.clear_checkpoint();
                Ok(Flow::Next)
            },
            OpCode::SetAgentMeta(s) => {
                self.soul_meta = Some(s.clone());
                Ok(Flow::Next)
            },
            OpCode::AllocMemorySlot(name) | OpCode::StoreMemory(name) => match frame.pop() {
                Some(v) => {
                    let ghost vv = value_view(v);
                    self.memory.insert(name.clone(), v);
                    assert(locals_view(self.memory.view()) =~= m0.memory.insert(name@, vv));
                    Ok(Flow::Next)
                },
                None => Err(VmError::StackUnderflow),
            },
            OpCode::LoadMemory(name) => {
                let v = match self.memory.get(name.as_str()) {
                    Some(v) => copy_value(v),
                    None => Value::Str(String::new()),
                };
                frame.push(v);
                Ok(Flow::Next)
            },
            OpCode::StoreLore(a, b) => {
                self.lore.insert(a.clone(), b.clone());
                assert(lore_view(self.lore.view()) =~= m0.lore.insert(a@, b@));
                Ok(Flow::Next)
            },
            OpCode::LoadLore(name) => {
                let v = match self.lore.get(name.as_str()) {
                    Some(t) => t.clone(),
                    None => String::new(),
                };
                frame.push(Value::Str(v));
                Ok(Flow::Next)
            },
            OpCode::EnumVariant { variant, payload } => {
                if *payload {
                    match frame.pop() {
                        Some(v) => {
                            frame.push(Value::EnumVariant { variant: variant.clone(), payload: Some(Box::new(v)) });
                            Ok(Flow::Next)
                        },
                        None => Err(VmError::StackUnderflow),
                    }
                } else {
                    frame.push(Value::EnumVariant { variant: variant.clone(), payload: None });
                    Ok(Flow::Next)
                }
            },
            _ => {
                assert(false);
                Err(VmError::StackUnderflow)
            },
        }
    }
}

pub open spec fn is_arith_op(op: OpV) -> bool {
    op is CmpEq || op is CmpNotEq || op is CmpGt || op is CmpLt || op is Add || op is Sub || op is Mul || op is Div
        || op is Mod || op is And || op is Or
}

pub open spec fn is_fields_op(op: OpV) -> bool {
    op is FieldAccess || op is StructConstruct
}

pub open spec fn is_io_op(op: OpV) -> bool {
    op is Println || op is PersistLoad || op is PersistSave || op is PersistDelete
}

fn int_op(op: &OpCode, a: u64, b: u64) -> (r: Result<u64, VmError>)
    requires
        op_view(*op) is Add || op_view(*op) is Sub || op_view(*op) is Mul || op_view(*op) is Div
            || op_view(*op) is Mod,
    ensures
        match int_arith(op_view(*op), a, b) {
            Ok(n) => r == Ok::<u64, VmError>(n),
            Err(e) => r matches Err(x) && vm_err_view(x) == e,
        },
{
    match op {
        OpCode::Add => match a.checked_add(b) {
            Some(n) => Ok(n),
            None => Err(VmError::ArithmeticOverflow),
        },
        OpCode::Sub => match a.checked_sub(b) {
            Some(n) => Ok(n),
            None => Err(VmError::ArithmeticOverflow),
        },
        OpCode::Mul => match a.checked_mul(b) {
            Some(n) => Ok(n),
            None => Err(VmError::ArithmeticOverflow),
        },
        OpCode::Div => if b == 0 {
            Err(VmError::DivisionByZero)
        } else {
            Ok(a / b)
        },
        _ => if b == 0 {
            Err(VmError::ModuloByZero)
        } else {
            Ok(a % b)
        },
    }
}

/// Parses a tuple field index (see [`tuple_index`]).
fn parse_index(f: &String) -> (r: Option<usize>)
    ensures
        match tuple_index(f@) {
            Some(i) => r == Some(i as usize),
            None => r is None,
        },
{
    let v = crate::text::chars_of(f.as_str());
    let start: usize = if v.len() > 0 && v[0] == '+' {
        1
    } else {
        0
    };
    let ghost d = unsigned_digits(f@);
    assert(d =~= v@.subrange(start as int, v.len() as int));
    if start >= v.len() {
        return None;
    }
    let mut k = start;
    while k < v.len()
        invariant
            start <= k <= v.len(),
            d == v@.subrange(start as int, v.len() as int),
            d == unsigned_digits(f@),
            forall|j: int| start <= j < k ==> crate::lexer::is_digit(#[trigger] v@[j]),
        decreases v.len() - k,
    {
        if !(48 <= (v[k] as u32) && (v[k] as u32) <= 57) {
            proof {
                assert(d[k - start] == v@[k as int]);
                assert(!crate::lexer::is_digit(d[k - start]));
                assert(!all_digits(d));
            }
            return None;
        }
        k = k + 1;
    }
    assert forall|j: int| 0 <= j < d.len() implies crate::lexer::is_digit(#[trigger] d[j]) by {
        assert(d[j] == v@[start + j]);
    }
    match crate::lexer::digits_u64(&v, start, v.len()) {
        Some(n) => if n <= usize::MAX as u64 {
            Some(n as usize)
        } else {
            None
        },
        None => None,
    }
}

fn field_lookup(fields: &Vec<(String, Value)>, name: &String) -> (r: Option<Value>)
    ensures
        match field_of(fields_view(fields@), name@) {
            Some(v) => r matches Some(x) && value_view(x) == v,
            None => r is None,
        },
{
    let ghost fv = fields_view(fields@);
    proof {
        crate::value::lemma_fields_view_index(fields@);
    }
    let mut i: usize = 0;
    assert(fv.subrange(0, fv.len() as int) =~= fv);
    while i < fields.len()
        invariant
            i <= fields.len(),
            fv == fields_view(fields@),
            fv.len() == fields.len(),
            forall|k: int| 0 <= k < fields.len() ==> #[trigger] fv[k] == (fields@[k].0@, value_view(fields@[k].1)),
            field_of(fv, name@) == field_of(fv.subrange(i as int, fv.len() as int), name@),
        decreases fields.len() - i,
    {
        let ghost rest = fv.subrange(i as int, fv.len() as int);
        assert(rest[0] == fv[i as int]);
        assert(rest.drop_first() =~= fv.subrange(i + 1, fv.len() as int));
        if crate::text::str_eq(fields[i].0.as_str(), name.as_str()) {
            return Some(copy_value(&fields[i].1));
        }
        i = i + 1;
    }
    None
}

impl<B: InferenceBackend, S: PersistentStore> Vm<B, S> {
    fn text(&self, v: &Value) -> (r: String)
        ensures
            r@ == text_of(self.mv(), value_view(*v)),
    {
        proof {
            assert(vecs_view(self.vectors@).len() == self.vectors@.len());
        }
        render(v, &self.vectors, self.vectors.len())
    }

    fn pop_text(frame: &mut Frame) -> (r: Result<String, VmError>)
        ensures
            old(frame).fv().stack.len() == 0 ==> (r matches Err(VmError::StackUnderflow) && final(frame).fv()
                == old(frame).fv()),
            old(frame).fv().stack.len() > 0 ==> final(frame).fv() == popped(old(frame).fv()),
            old(frame).fv().stack.len() > 0 ==> match old(frame).fv().stack.last() {
                ValueV::Str(s) => r matches Ok(t) && t@ == s,
                _ => r matches Err(VmError::ExpectedStr),
            },
    {
        match frame.pop() {
            Some(Value::Str(s)) => Ok(s),
            Some(_) => Err(VmError::ExpectedStr),
            None => Err(VmError::StackUnderflow),
        }
    }

    fn step_arith(&mut self, op: &OpCode, frame: &mut Frame) -> (r: Result<Flow, VmError>)
        requires
            old(self).wf(),
            is_arith_op(op_view(*op)),
        ensures
            final(self).wf(),
            final(self).log() == old(self).log(),
            forall|bc: BytecodeV, log: Seq<Exchange>, fuel: nat|
                #[trigger] step(bc, op_view(*op), old(self).mv(), old(frame).fv(), log, fuel) == (
                flow_view(r),
                final(self).mv(),
                final(frame).fv(),
            ),
    {
        let ghost m0 = self.mv();
        let ghost f0 = frame.fv();
        match op {
            OpCode::CmpEq | OpCode::CmpNotEq | OpCode::CmpGt | OpCode::CmpLt => {
                if frame.len() < 2 {
                    return Err(VmError::StackUnderflow);
                }
                let b = match op {
                    OpCode::CmpEq => eq_values(frame.below(1), frame.below(0)),
                    OpCode::CmpNotEq => !eq_values(frame.below(1), frame.below(0)),
                    OpCode::CmpGt => gt_values(frame.below(1), frame.below(0)),
                    _ => gt_values(frame.below(0), frame.below(1)),
                };
                let _ = frame.take_top(2);
                frame.push(Value::Int(if b { 1 } else { 0 }));
                Ok(Flow::Next)
            },
            OpCode::Add | OpCode::Sub | OpCode::Mul | OpCode::Div | OpCode::Mod => {
                if frame.len() < 2 {
                    return Err(VmError::StackUnderflow);
                }
                let res = match (frame.below(1), frame.below(0)) {
                    (Value::Int(a), Value::Int(b)) => match int_op(op, *a, *b) {
                        Ok(n) => Ok(Value::Int(n)),
                        Err(e) => Err(e),
                    },
                    (Value::Float(_), Value::Float(_)) => Err(VmError::DecimalArithmetic),
                    _ => Err(VmError::InvalidOperands),
                };
                let _ = frame.take_top(2);
                match res {
                    Ok(v) => {
                        frame.push(v);
                        Ok(Flow::Next)
                    },
                    Err(e) => Err(e),
                }
            },
            OpCode::And | OpCode::Or => {
                if frame.len() < 2 {
                    return Err(VmError::StackUnderflow);
                }
                let a = truth_of(frame.below(1));
                let b = truth_of(frame.below(0));
                let _ = frame.take_top(2);
                let v = match op {
                    OpCode::And => a && b,
                    _ => a || b,
                };
                frame.push(Value::Bool(v));
                Ok(Flow::Next)
            },
            _ => {
                assert(false);
                Err(VmError::StackUnderflow)
            },
        }
    }

    fn step_tuple_pack(&mut self, op: &OpCode, frame: &mut Frame) -> (r: Result<Flow, VmError>)
        requires
            old(self).wf(),
            op_view(*op) is TuplePack,
        ensures
            final(self).wf(),
            final(self).log() == old(self).log(),
            forall|bc: BytecodeV, log: Seq<Exchange>, fuel: nat|
                #[trigger] step(bc, op_view(*op), old(self).mv(), old(frame).fv(), log, fuel) == (
                flow_view(r),
                final(self).mv(),
                final(frame).fv(),
            ),
    {
        let ghost m0 = self.mv();
        let ghost f0 = frame.fv();
        match op {
            OpCode::TuplePack(k) => {
                if frame.len() < *k as usize {
                    return Err(VmError::StackUnderflow);
                }
                let items = frame.take_top(*k as usize);
                frame.push(Value::Tuple(items));
                Ok(Flow::Next)
            },
            _ => {
                assert(false);
                Err(VmError::StackUnderflow)
            },
        }
    }

    fn step_vec_new(&mut self, op: &OpCode, frame: &mut Frame) -> (r: Result<Flow, VmError>)
        requires
            old(self).wf(),
            op_view(*op) is VecNew,
        ensures
            final(self).wf(),
            final(self).log() == old(self).log(),
            forall|bc: BytecodeV, log: Seq<Exchange>, fuel: nat|
                #[trigger] step(bc, op_view(*op), old(self).mv(), old(frame).fv(), log, fuel) == (
                flow_view(r),
                final(self).mv(),
                final(frame).fv(),
            ),
    {
        let ghost m0 = self.mv();
        let ghost f0 = frame.fv();
        match op {
            OpCode::VecNew(k) => {
                if frame.len() < *k as usize {
                    return Err(VmError::StackUnderflow);
                }
                let items = frame.take_top(*k as usize);
                let h = self.vectors.len();
                let ghost iv = values_view(items@);
                self.vectors.push(items);
                assert(vecs_view(self.vectors@) =~= m0.vecs.push(iv));
                frame.push(Value::Vec(h));
                Ok(Flow::Next)
            },
            _ => {
                assert(false);
                Err(VmError::StackUnderflow)
            },
        }
    }

    fn step_vec_get(&mut self, op: &OpCode, frame: &mut Frame) -> (r: Result<Flow, VmError>)
        requires
            old(self).wf(),
            op_view(*op) is VecGet,
        ensures
            final(self).wf(),
            final(self).log() == old(self).log(),
            forall|bc: BytecodeV, log: Seq<Exchange>, fuel: nat|
                #[trigger] step(bc, op_view(*op), old(self).mv(), old(frame).fv(), log, fuel) == (
                flow_view(r),
                final(self).mv(),
                final(frame).fv(),
            ),
    {
        let ghost m0 = self.mv();
        let ghost f0 = frame.fv();
        match op {
            OpCode::VecGet => {
                if frame.len() < 2 {
                    return Err(VmError::StackUnderflow);
                }
                let top2 = frame.take_top(2);
                proof {
                    crate::value::lemma_values_view_index(top2@);
                    let n = f0.stack.len();
                    assert(values_view(top2@)[0] == f0.stack[n - 2]);
                    assert(values_view(top2@)[1] == f0.stack[n - 1]);
                }
                match &top2[0] {
                    Value::Vec(h) => if *h >= self.vectors.len() {
                        Err(VmError::NotAVector)
                    } else {
                        match &top2[1] {
                        Value::Int(i) => {
                            let ghost hv = vecs_view(self.vectors@)[*h as int];
                            assert(hv == values_view(self.vectors@[*h as int]@));
                            proof {
                                crate::value::lemma_values_view_index(self.vectors@[*h as int]@);
                            }
                            if (*i as u128) < (self.vectors[*h].len() as u128) {
                                let v = copy_value(&self.vectors[*h][*i as usize]);
                                frame.push(v);
                                Ok(Flow::Next)
                            } else {
                                Err(VmError::VectorIndexOutOfBounds)
                            }
                        },
                        _ => Err(VmError::VectorIndexNotInteger),
                        }
                    },
                    _ => Err(VmError::NotAVector),
                }
            },
            _ => {
                assert(false);
                Err(VmError::StackUnderflow)
            },
        }
    }

    fn step_vec_set(&mut self, op: &OpCode, frame: &mut Frame) -> (r: Result<Flow, VmError>)
        requires
            old(self).wf(),
            op_view(*op) is VecSet,
        ensures
            final(self).wf(),
            final(self).log() == old(self).log(),
            forall|bc: BytecodeV, log: Seq<Exchange>, fuel: nat|
                #[trigger] step(bc, op_view(*op), old(self).mv(), old(frame).fv(), log, fuel) == (
                flow_view(r),
                final(self).mv(),
                final(frame).fv(),
            ),
    {
        let ghost m0 = self.mv();
        let ghost f0 = frame.fv();
        match op {
            OpCode::VecSet => {
                if frame.len() < 3 {
                    return Err(VmError::StackUnderflow);
                }
                let mut top3 = frame.take_top(3);
                proof {
                    crate::value::lemma_values_view_index(top3@);
                    let n = f0.stack.len();
                    assert(values_view(top3@)[0] == f0.stack[n - 3]);
                    assert(values_view(top3@)[1] == f0.stack[n - 2]);
                    assert(values_view(top3@)[2] == f0.stack[n - 1]);
                }
                let val = top3.pop().unwrap();
                let ghost vv = value_view(val);
                match (&top3[0], &top3[1]) {
                    (Value::Vec(h), Value::Int(i)) => if *h >= self.vectors.len() {
                        Err(VmError::NotAVector)
                    } else {
                        let h = *h;
                        proof {
                            crate::value::lemma_values_view_index(self.vectors@[h as int]@);
                        }
                        if (*i as u128) < (self.vectors[h].len() as u128) {
                            let i = *i as usize;
                            let ghost old_inner = self.vectors@[h as int]@;
                            let mut inner = self.vectors.remove(h);
                            assert(inner@ == old_inner);
                            inner.set(i, val);
                            proof {
                                crate::value::lemma_values_view_index(inner@);
                                assert(values_view(inner@) =~= values_view(old_inner).update(i as int, vv));
                            }
                            self.vectors.insert(h, inner);
                            assert(vecs_view(self.vectors@) =~= m0.vecs.update(
                                h as int,
                                m0.vecs[h as int].update(i as int, vv),
                            ));
                            Ok(Flow::Next)
                        } else {
                            Err(VmError::VectorIndexOutOfBounds)
                        }
                    },
                    (Value::Vec(h), _) => if *h >= self.vectors.len() {
                        Err(VmError::NotAVector)
                    } else {
                        Err(VmError::VectorIndexNotInteger)
                    },
                    _ => Err(VmError::NotAVector),
                }
            },
            _ => {
                assert(false);
                Err(VmError::StackUnderflow)
            },
        }
    }

    fn step_vec_len(&mut self, op: &OpCode, frame: &mut Frame) -> (r: Result<Flow, VmError>)
        requires
            old(self).wf(),
            op_view(*op) is VecLen,
        ensures
            final(self).wf(),
            final(self).log() == old(self).log(),
            forall|bc: BytecodeV, log: Seq<Exchange>, fuel: nat|
                #[trigger] step(bc, op_view(*op), old(self).mv(), old(frame).fv(), log, fuel) == (
                flow_view(r),
                final(self).mv(),
                final(frame).fv(),
            ),
    {
        let ghost m0 = self.mv();
        let ghost f0 = frame.fv();
        match op {
            OpCode::VecLen => match frame.pop() {
                Some(Value::Vec(h)) => if h < self.vectors.len() {
                    proof {
                        crate::value::lemma_values_view_index(self.vectors@[h as int]@);
                    }
                    frame.push(Value::Int(self.vectors[h].len() as u64));
                    Ok(Flow::Next)
                } else {
                    Err(VmError::NotAVector)
                },
                Some(_) => Err(VmError::NotAVector),
                None => Err(VmError::StackUnderflow),
            },
            _ => {
                assert(false);
                Err(VmError::StackUnderflow)
            },
        }
    }

    fn step_vec_push(&mut self, op: &OpCode, frame: &mut Frame) -> (r: Result<Flow, VmError>)
        requires
            old(self).wf(),
            op_view(*op) is VecPush,
        ensures
            final(self).wf(),
            final(self).log() == old(self).log(),
            forall|bc: BytecodeV, log: Seq<Exchange>, fuel: nat|
                #[trigger] step(bc, op_view(*op), old(self).mv(), old(frame).fv(), log, fuel) == (
                flow_view(r),
                final(self).mv(),
                final(frame).fv(),
            ),
    {
        let ghost m0 = self.mv();
        let ghost f0 = frame.fv();
        match op {
            OpCode::VecPush => {
                if frame.len() < 2 {
                    return Err(VmError::StackUnderflow);
                }
                let mut top2 = frame.take_top(2);
                proof {
                    crate::value::lemma_values_view_index(top2@);
                    let n = f0.stack.len();
                    assert(values_view(top2@)[0] == f0.stack[n - 2]);
                    assert(values_view(top2@)[1] == f0.stack[n - 1]);
                }
                let val = top2.pop().unwrap();
                let ghost vv = value_view(val);
                match &top2[0] {
                    Value::Vec(h) => if *h >= self.vectors.len() {
                        Err(VmError::NotAVector)
                    } else {
                        let h = *h;
                        let ghost old_inner = self.vectors@[h as int]@;
                        let mut inner = self.vectors.remove(h);
                        assert(inner@ == old_inner);
                        inner.push(val);
                        proof {
                            crate::value::lemma_values_view_index(inner@);
                            crate::value::lemma_values_view_index(old_inner);
                            assert(values_view(inner@) =~= values_view(old_inner).push(vv));
                        }
                        self.vectors.insert(h, inner);
                        assert(vecs_view(self.vectors@) =~= m0.vecs.update(h as int, m0.vecs[h as int].push(vv)));
                        Ok(Flow::Next)
                    },
                    _ => Err(VmError::NotAVector),
                }
            },
            _ => {
                assert(false);
                Err(VmError::StackUnderflow)
            },
        }
    }

    fn step_fields(&mut self, op: &OpCode, frame: &mut Frame) -> (r: Result<Flow, VmError>)
        requires
            old(self).wf(),
            is_fields_op(op_view(*op)),
        ensures
            final(self).wf(),
            final(self).log() == old(self).log(),
            forall|bc: BytecodeV, log: Seq<Exchange>, fuel: nat|
                #[trigger] step(bc, op_view(*op), old(self).mv(), old(frame).fv(), log, fuel) == (
                flow_view(r),
                final(self).mv(),
                final(frame).fv(),
            ),
    {
        let ghost m0 = self.mv();
        let ghost f0 = frame.fv();
        match op {
            OpCode::FieldAccess(field) => match frame.pop() {
                Some(Value::Tuple(items)) => match parse_index(field) {
                    Some(i) => {
                        proof {
                            crate::value::lemma_values_view_index(items@);
                        }
                        if i < items.len() {
                            frame.push(copy_value(&items[i]));
                            Ok(Flow::Next)
                        } else {
                            Err(VmError::TupleIndexOutOfBounds)
                        }
                    },
                    None => Err(VmError::NotATupleIndex(field.clone())),
                },
                Some(Value::Struct { name: _, fields }) => match field_lookup(&fields, field) {
                    Some(v) => {
                        frame.push(v);
                        Ok(Flow::Next)
                    },
                    None => Err(VmError::NoSuchField(field.clone())),
                },
                Some(_) => Err(VmError::NotAStructOrTuple),
                None => Err(VmError::StackUnderflow),
            },
            OpCode::StructConstruct { name, field_names } => {
                let k = field_names.len();
                if frame.len() < k {
                    return Err(VmError::StackUnderflow);
                }
                let vals = frame.take_top(k);
                proof {
                    crate::value::lemma_values_view_index(vals@);
                }
                let mut fields: Vec<(String, Value)> = Vec::new();
                let mut vals = vals;
                let ghost vals0 = vals@;
                let ghost vv = values_view(vals@);
                let ghost names = crate::ast::strings_view(field_names@);
                assert(names.len() == k);
                let mut j: usize = 0;
                while j < k
                    invariant
                        j <= k,
                        k == field_names.len(),
                        vals0.len() == k,
                        vals@ == vals0.subrange(j as int, k as int),
                        names == crate::ast::strings_view(field_names@),
                        forall|i: int| 0 <= i < k ==> #[trigger] value_view(vals0[i]) == vv[i],
                        fields.len() == j,
                        forall|i: int|
                            0 <= i < j ==> (#[trigger] fields@[i]).0@ == names[i] && value_view(fields@[i].1) == vv[i],
                    decreases k - j,
                {
                    let v = vals.remove(0);
                    assert(vals@ =~= vals0.subrange(j + 1, k as int));
                    fields.push((field_names[j].clone(), v));
                    j = j + 1;
                }
                let ghost fs = Seq::new(k as nat, |i: int| (names[i], vv[i]));
                proof {
                    crate::value::lemma_fields_view_ext(fields@, fs);
                }
                frame.push(Value::Struct { name: name.clone(), fields });
                Ok(Flow::Next)
            },
            _ => {
                assert(false);
                Err(VmError::StackUnderflow)
            },
        }
    }

    fn step_io(&mut self, op: &OpCode, frame: &mut Frame) -> (r: Result<Flow, VmError>)
        requires
            old(self).wf(),
            is_io_op(op_view(*op)),
        ensures
            final(self).wf(),
            final(self).log() == old(self).log(),
            forall|bc: BytecodeV, log: Seq<Exchange>, fuel: nat|
                #[trigger] step(bc, op_view(*op), old(self).mv(), old(frame).fv(), log, fuel) == (
                flow_view(r),
                final(self).mv(),
                final(frame).fv(),
            ),
    {
        let ghost m0 = self.mv();
        let ghost f0 = frame.fv();
        match op {
            OpCode::Println => match frame.pop() {
                Some(v) => {
                    let t = self.text(&v);
                    self.output.push(t);
                    assert(texts_view(self.output@) =~= m0.output.push(t@));
                    Ok(Flow::Next)
                },
                None => Err(VmError::StackUnderflow),
            },
            OpCode::PersistLoad => {
                let key = match Self::pop_text(frame) {
                    Ok(k) => k,
                    Err(e) => {
                        return Err(e);
                    },
                };
                let v = match &self.persistent {
                    Some(store) => match store.load(key.as_str()) {
                        Some(v) => v,
                        None => String::new(),
                    },
                    None => String::new(),
                };
                frame.push(Value::Str(v));
                Ok(Flow::Next)
            },
            OpCode::PersistSave => {
                let value = match Self::pop_text(frame) {
                    Ok(k) => k,
                    Err(e) => {
                        return Err(e);
                    },
                };
                let key = match Self::pop_text(frame) {
                    Ok(k) => k,
                    Err(e) => {
                        return Err(e);
                    },
                };
                match self.persistent.take() {
                    Some(mut store) => {
                        store.save(key.as_str(), value.as_str());
                        self.persistent = Some(store);
                    },
                    None => {},
                }
                Ok(Flow::Next)
            },
            OpCode::PersistDelete => {
                let key = match Self::pop_text(frame) {
                    Ok(k) => k,
                    Err(e) => {
                        return Err(e);
                    },
                };
                match self.persistent.take() {
                    Some(mut store) => {
                        store.delete(key.as_str());
                        self.persistent = Some(store);
                    },
                    None => {},
                }
                Ok(Flow::Next)
            },
            _ => {
                assert(false);
                Err(VmError::StackUnderflow)
            },
        }
    }
}

/// The instructions on the token heap.
pub open spec fn is_heap_op(op: OpV) -> bool {
    op is CtxAlloc || op is CtxFreeStack || op is CtxAppendStack || op is CtxAppendLiteral
}

impl<B: InferenceBackend, S: PersistentStore> Vm<B, S> {
    fn step_heap(&mut self, op: &OpCode, frame: &mut Frame) -> (r: Result<Flow, VmError>)
        requires
            old(self).wf(),
            is_heap_op(op_view(*op)),
        ensures
            final(self).wf(),
            final(self).log() == old(self).log(),
            forall|bc: BytecodeV, log: Seq<Exchange>, fuel: nat|
                #[trigger] step(bc, op_view(*op), old(self).mv(), old(frame).fv(), log, fuel) == (
                flow_view(r),
                final(self).mv(),
                final(frame).fv(),
            ),
    {
        let ghost m0 = self.mv();
        let ghost f0 = frame.fv();
        match op {
            OpCode::CtxAlloc(t) => {
                let tokens = *t as usize;
                if !self.heap.can_allocate(tokens) {
                    return Err(VmError::HandlesExhausted);
                }
                match self.heap.allocate(tokens) {
                    Ok(id) => {
                        frame.push(Value::CtxHandle(id));
                        Ok(Flow::Next)
                    },
                    Err(e) => Err(VmError::Heap(e)),
                }
            },
            OpCode::CtxFreeStack => match frame.pop() {
                Some(Value::CtxHandle(id)) => match self.heap.free(id) {
                    Ok(()) => Ok(Flow::Next),
                    Err(e) => Err(VmError::Heap(e)),
                },
                Some(_) => Err(VmError::ExpectedCtxHandle),
                None => Err(VmError::StackUnderflow),
            },
            OpCode::CtxAppendStack => {
                let text = match Self::pop_text(frame) {
                    Ok(t) => t,
                    Err(e) => {
                        return Err(e);
                    },
                };
                match frame.pop() {
                    Some(Value::CtxHandle(id)) => match self.heap.append(id, text.as_str()) {
                        Ok(()) => Ok(Flow::Next),
                        Err(e) => Err(VmError::Heap(e)),
                    },
                    Some(_) => Err(VmError::ExpectedCtxHandle),
                    None => Err(VmError::StackUnderflow),
                }
            },
            OpCode::CtxAppendLiteral(s) => {
                let id = match frame.local("ctx") {
                    Some(Value::CtxHandle(id)) => *id,
                    _ => {
                        return Ok(Flow::Next);
                    },
                };
                match self.heap.append(id, s.as_str()) {
                    Ok(()) => Ok(Flow::Next),
                    Err(e) => Err(VmError::Heap(e)),
                }
            },
            _ => {
                assert(false);
                Err(VmError::StackUnderflow)
            },
        }
    }
}

/// The instructions that ask the backend.
pub open spec fn is_backend_op(op: OpV) -> bool {
    op is CtxCompress || op is InferClassify || op is Act || op is CallOracle
}





proof fn lemma_prefix_trans(a: Seq<Exchange>, b: Seq<Exchange>, c: Seq<Exchange>)
    requires
        a.is_prefix_of(b),
        b.is_prefix_of(c),
    ensures
        a.is_prefix_of(c),
{
    assert forall|i: int| 0 <= i < a.len() implies a[i] == c.subrange(0, a.len() as int)[i] by {
        assert(a[i] == b.subrange(0, a.len() as int)[i]);
        assert(b[i] == c.subrange(0, b.len() as int)[i]);
    }
    assert(a =~= c.subrange(0, a.len() as int));
}

proof fn lemma_prefix_push(a: Seq<Exchange>, x: Exchange)
    ensures
        a.is_prefix_of(a.push(x)),
{
    assert(a =~= a.push(x).subrange(0, a.len() as int));
}

proof fn lemma_prefix_refl(a: Seq<Exchange>)
    ensures
        a.is_prefix_of(a),
{
    assert(a =~= a.subrange(0, a.len() as int));
}

/// After an exchange is logged at the end of `log`, every log that extends
/// the new one answers it there.
proof fn lemma_logged(log: Seq<Exchange>, x: Exchange, l: Seq<Exchange>)
    requires
        log.push(x).is_prefix_of(l),
    ensures
        log.len() < l.len(),
        l[log.len() as int] == x,
{
    assert(l.subrange(0, log.len() as int + 1)[log.len() as int] == x);
}

fn ratio_at_least(a: u64, b: u64, c: u64, d: u64) -> (r: bool)
    ensures
        r == ratio_ge(a, b, c, d),
{
    let (a, b) = if b == 0 { (0u64, 1u64) } else { (a, b) };
    let (c, d) = if d == 0 { (0u64, 1u64) } else { (c, d) };
    assert(a * d <= 0xffff_ffff_ffff_ffffu64 * 0xffff_ffff_ffff_ffffu64) by (nonlinear_arith)
        requires
            a <= 0xffff_ffff_ffff_ffffu64,
            d <= 0xffff_ffff_ffff_ffffu64,
    ;
    assert(c * b <= 0xffff_ffff_ffff_ffffu64 * 0xffff_ffff_ffff_ffffu64) by (nonlinear_arith)
        requires
            c <= 0xffff_ffff_ffff_ffffu64,
            b <= 0xffff_ffff_ffff_ffffu64,
    ;
    let l = (a as u128) * (d as u128);
    let rr = (c as u128) * (b as u128);
    l >= rr
}

fn pick_winner(scores: &Vec<Score>) -> (r: String)
    ensures
        r@ == winner(scores_view(scores@)),
{
    let ghost sv = scores_view(scores@);
    if scores.len() == 0 {
        return String::new();
    }
    let mut best: usize = 0;
    let mut i: usize = 1;
    while i < scores.len()
        invariant
            1 <= i <= scores.len(),
            sv == scores_view(scores@),
            best < i,
            best == best_index(sv.subrange(0, i as int)),
        decreases scores.len() - i,
    {
        let ghost pre = sv.subrange(0, i as int);
        let ghost nx = sv.subrange(0, i + 1);
        assert(nx.drop_last() =~= pre);
        assert(nx.last() == sv[i as int]);
        assert(nx[best as int] == sv[best as int]);
        if ratio_at_least(scores[i].num, scores[i].den, scores[best].num, scores[best].den) {
            best = i;
        }
        i = i + 1;
    }
    assert(sv.subrange(0, scores.len() as int) =~= sv);
    scores[best].label.clone()
}

impl<B: InferenceBackend, S: PersistentStore> Vm<B, S> {
    fn log_text(&mut self, req: Ghost<Request>, reply: &Result<String, BackendError>)
        requires
            old(self).backend.answered(req@, Reply::Text(text_result(*reply))),
        ensures
            final(self).log() == old(self).log().push(Exchange { request: req@, reply: Reply::Text(text_result(*reply)) }),
            final(self).mv() == (MachineV { rp: old(self).mv().rp + 1, ..old(self).mv() }),
            final(self).wf() == old(self).wf(),
    {
        let ghost old_log = self.log@;
        self.log = Ghost(self.log@.push(Exchange { request: req@, reply: Reply::Text(text_result(*reply)) }));
        proof {
            let nl = self.log@;
            assert forall|i: int| 0 <= i < old_log.len() implies #[trigger] nl[i] == old_log[i] by {}
            if old(self).wf() {
                assert forall|i: int| #![trigger nl[i]] 0 <= i < nl.len() implies self.backend.answered(
                    nl[i].request,
                    nl[i].reply,
                ) by {
                    if i < old_log.len() {
                        assert(nl[i] == old_log[i]);
                    }
                }
            }
            if self.wf() {
                assert forall|i: int| #![trigger old_log[i]] 0 <= i < old_log.len() implies self.backend.answered(
                    old_log[i].request,
                    old_log[i].reply,
                ) by {
                    assert(nl[i] == old_log[i]);
                }
            }
        }
    }

    fn log_scores(&mut self, req: Ghost<Request>, reply: &Result<Vec<Score>, BackendError>)
        requires
            old(self).backend.answered(req@, Reply::Scores(scores_result(*reply))),
        ensures
            final(self).log() == old(self).log().push(
                Exchange { request: req@, reply: Reply::Scores(scores_result(*reply)) },
            ),
            final(self).mv() == (MachineV { rp: old(self).mv().rp + 1, ..old(self).mv() }),
            final(self).wf() == old(self).wf(),
    {
        let ghost old_log = self.log@;
        self.log = Ghost(self.log@.push(Exchange { request: req@, reply: Reply::Scores(scores_result(*reply)) }));
        proof {
            let nl = self.log@;
            assert forall|i: int| 0 <= i < old_log.len() implies #[trigger] nl[i] == old_log[i] by {}
            if old(self).wf() {
                assert forall|i: int| #![trigger nl[i]] 0 <= i < nl.len() implies self.backend.answered(
                    nl[i].request,
                    nl[i].reply,
                ) by {
                    if i < old_log.len() {
                        assert(nl[i] == old_log[i]);
                    }
                }
            }
            if self.wf() {
                assert forall|i: int| #![trigger old_log[i]] 0 <= i < old_log.len() implies self.backend.answered(
                    old_log[i].request,
                    old_log[i].reply,
                ) by {
                    assert(nl[i] == old_log[i]);
                }
            }
        }
    }

    fn take_prompt(frame: &mut Frame) -> (r: String)
        ensures
            (r@, final(frame).fv()) == take_text(old(frame).fv()),
    {
        match frame.pop() {
            Some(Value::Str(s)) => s,
            _ => String::new(),
        }
    }

    fn step_backend(&mut self, op: &OpCode, frame: &mut Frame) -> (r: Result<Flow, VmError>)
        requires
            old(self).wf(),
            is_backend_op(op_view(*op)),
        ensures
            final(self).wf(),
            old(self).log().is_prefix_of(final(self).log()),
            forall|bc: BytecodeV, log: Seq<Exchange>, fuel: nat|
                #![trigger step(bc, op_view(*op), old(self).mv(), old(frame).fv(), log, fuel)]
                final(self).log().is_prefix_of(log) ==> step(bc, op_view(*op), old(self).mv(), old(frame).fv(), log, fuel)
                    == (flow_view(r), final(self).mv(), final(frame).fv()),
    {
        let ghost m0 = self.mv();
        let ghost f0 = frame.fv();
        let ghost log0 = self.log();
        match op {
            OpCode::CtxCompress => match frame.pop() {
                Some(Value::CtxHandle(id)) => {
                    let content = match self.heap.get_content(id) {
                        Ok(c) => c,
                        Err(e) => {
                            return Err(VmError::Heap(e));
                        },
                    };
                    let reply = self.backend.compress(content.as_str());
                    let ghost req = Request::Compress(content@);
                    self.log_text(Ghost(req), &reply);
                    let ghost x = Exchange { request: req, reply: Reply::Text(text_result(reply)) };
                    let ghost m1 = self.mv();
                    let ghost f1 = frame.fv();
                    let r = match reply {
                        Ok(c) => match self.heap.set_content(id, c) {
                            Ok(()) => Ok(Flow::Next),
                            Err(e) => Err(VmError::Heap(e)),
                        },
                        Err(e) => Err(VmError::Backend(e.message)),
                    };
                    assert forall|bc: BytecodeV, log: Seq<Exchange>, fuel: nat|
                        #![trigger step(bc, op_view(*op), m0, f0, log, fuel)]
                        self.log().is_prefix_of(log) implies step(bc, op_view(*op), m0, f0, log, fuel) == (
                        flow_view(r),
                        self.mv(),
                        frame.fv(),
                    ) by {
                        lemma_logged(log0, x, log);
                    }
                    r
                },
                Some(_) => Err(VmError::ExpectedCtxHandle),
                None => Err(VmError::StackUnderflow),
            },
            OpCode::InferClassify(labels) => {
                let prompt = Self::take_prompt(frame);
                let reply = self.backend.classify(prompt.as_str(), labels);
                let ghost req = Request::Classify(prompt@, crate::ast::strings_view(labels@));
                self.log_scores(Ghost(req), &reply);
                let ghost x = Exchange { request: req, reply: Reply::Scores(scores_result(reply)) };
                let r = match reply {
                    Ok(scores) => {
                        let w = pick_winner(&scores);
                        frame.push(Value::Str(w));
                        Ok(Flow::Next)
                    },
                    Err(e) => Err(VmError::Backend(e.message)),
                };
                assert forall|bc: BytecodeV, log: Seq<Exchange>, fuel: nat|
                    #![trigger step(bc, op_view(*op), m0, f0, log, fuel)]
                    self.log().is_prefix_of(log) implies step(bc, op_view(*op), m0, f0, log, fuel) == (
                    flow_view(r),
                    self.mv(),
                    frame.fv(),
                ) by {
                    lemma_logged(log0, x, log);
                }
                r
            },
            OpCode::Act => {
                let payload = Self::take_prompt(frame);
                let reply = self.backend.act(payload.as_str());
                let ghost req = Request::Act(payload@);
                self.log_text(Ghost(req), &reply);
                let ghost x = Exchange { request: req, reply: Reply::Text(text_result(reply)) };
                let r = match reply {
                    Ok(_) => Ok(Flow::Next),
                    Err(e) => Err(VmError::Backend(e.message)),
                };
                assert forall|bc: BytecodeV, log: Seq<Exchange>, fuel: nat|
                    #![trigger step(bc, op_view(*op), m0, f0, log, fuel)]
                    self.log().is_prefix_of(log) implies step(bc, op_view(*op), m0, f0, log, fuel) == (
                    flow_view(r),
                    self.mv(),
                    frame.fv(),
                ) by {
                    lemma_logged(log0, x, log);
                }
                r
            },
            OpCode::CallOracle(name, k) => {
                if frame.len() < *k as usize {
                    return Err(VmError::StackUnderflow);
                }
                let vals = frame.take_top(*k as usize);
                proof {
                    crate::value::lemma_values_view_index(vals@);
                }
                let mut args: Vec<String> = Vec::new();
                let mut j: usize = 0;
                while j < vals.len()
                    invariant
                        j <= vals.len(),
                        self.mv() == m0,
                        values_view(vals@) == top(f0, *k as nat),
                        args.len() == j,
                        forall|i: int| 0 <= i < j ==> (#[trigger] args@[i])@ == text_of(m0, value_view(vals@[i])),
                    decreases vals.len() - j,
                {
                    args.push(self.text(&vals[j]));
                    j = j + 1;
                }
                let ghost av = top(f0, *k as nat).map_values(|v: ValueV| text_of(m0, v));
                assert(crate::ast::strings_view(args@) =~= av);
                let reply = self.backend.oracle(name.as_str(), &args);
                let ghost req = Request::Oracle(name@, av);
                self.log_text(Ghost(req), &reply);
                let ghost x = Exchange { request: req, reply: Reply::Text(text_result(reply)) };
                let r = match reply {
                    Ok(t) => {
                        frame.push(Value::Str(t));
                        Ok(Flow::Next)
                    },
                    Err(e) => Err(VmError::Backend(e.message)),
                };
                assert forall|bc: BytecodeV, log: Seq<Exchange>, fuel: nat|
                    #![trigger step(bc, op_view(*op), m0, f0, log, fuel)]
                    self.log().is_prefix_of(log) implies step(bc, op_view(*op), m0, f0, log, fuel) == (
                    flow_view(r),
                    self.mv(),
                    frame.fv(),
                ) by {
                    lemma_logged(log0, x, log);
                }
                r
            },
            _ => {
                assert(false);
                Err(VmError::StackUnderflow)
            },
        }
    }
}

// ── Thresholds ───────────────────────────────────────────────────────────────

proof fn lemma_pow10_monotone(k: nat, j: nat)
    requires
        k <= j,
    ensures
        pow10(k) <= pow10(j),
    decreases j,
{
    if k < j {
        lemma_pow10_monotone(k, (j - 1) as nat);
    }
}

fn pow10_u64(k: usize) -> (r: u64)
    requires
        k <= 19,
    ensures
        r == pow10(k as nat),
{
    proof {
        reveal_with_fuel(pow10, 20);
        assert(pow10(19) == 10000000000000000000nat);
    }
    let mut p: u64 = 1;
    let mut i: usize = 0;
    while i < k
        invariant
            i <= k <= 19,
            p == pow10(i as nat),
            pow10(19) == 10000000000000000000nat,
        decreases k - i,
    {
        proof {
            lemma_pow10_monotone((i + 1) as nat, 19);
        }
        p = p * 10;
        i = i + 1;
    }
    p
}

/// The threshold `t` as `n / 10^k` (see [`threshold`]).
fn threshold_of(t: &String) -> (r: Option<(u64, usize)>)
    ensures
        match threshold(t@) {
            Some((n, k)) => r == Some((n as u64, k as usize)),
            None => r is None,
        },
{
    let v = crate::text::chars_of(t.as_str());
    proof {
        crate::value::lemma_dot_from_range(v@, 0);
    }
    let ghost d = crate::value::dot_from(v@, 0);
    let mut k: usize = 0;
    while k < v.len() && v[k] != '.'
        invariant
            k <= d <= v.len(),
            d == crate::value::dot_from(v@, 0),
            crate::value::dot_from(v@, 0) == crate::value::dot_from(v@, k as int),
        decreases v.len() - k,
    {
        proof {
            crate::value::lemma_dot_from_range(v@, k + 1);
        }
        k = k + 1;
    }
    if k == 0 || (k < v.len() && k + 1 == v.len()) {
        return None;
    }
    let mut j: usize = 0;
    while j < v.len()
        invariant
            j <= v.len(),
            v@ == t@,
            k == crate::value::dot_from(v@, 0),
            forall|m: int| 0 <= m < j && m != k ==> crate::lexer::is_digit(#[trigger] v@[m]),
        decreases v.len() - j,
    {
        if j != k && !(48 <= (v[j] as u32) && (v[j] as u32) <= 57) {
            return None;
        }
        j = j + 1;
    }
    let mut digits: Vec<char> = Vec::new();
    let mut i: usize = 0;
    while i < v.len()
        invariant
            i <= v.len(),
            k <= v.len(),
            v@ == t@,
            k == crate::value::dot_from(v@, 0),
            digits@ == (if i <= k {
                v@.subrange(0, i as int)
            } else {
                v@.subrange(0, k as int) + v@.subrange(k + 1, i as int)
            }),
        decreases v.len() - i,
    {
        if i != k {
            digits.push(v[i]);
        }
        proof {
            if i < k {
                assert(v@.subrange(0, i + 1) =~= v@.subrange(0, i as int).push(v@[i as int]));
            } else if i == k {
                assert(v@.subrange(k + 1, i + 1) =~= Seq::<char>::empty());
                assert(v@.subrange(0, k as int) + v@.subrange(k + 1, i + 1) =~= v@.subrange(0, k as int));
            } else {
                assert(v@.subrange(k + 1, i + 1) =~= v@.subrange(k + 1, i as int).push(v@[i as int]));
            }
        }
        i = i + 1;
    }
    let frac_len: usize = if k < v.len() {
        v.len() - k - 1
    } else {
        0
    };
    proof {
        if k < v.len() {
            assert(digits@ =~= crate::value::int_part(v@) + crate::value::frac_part(v@));
        } else {
            assert(digits@ =~= crate::value::int_part(v@) + crate::value::frac_part(v@));
        }
        assert(frac_len == crate::value::frac_part(v@).len());
    }
    if frac_len > 19 {
        return None;
    }
    assert forall|m: int| 0 <= m < digits.len() implies crate::lexer::is_digit(#[trigger] digits@[m]) by {
        if m < k {
            assert(digits@[m] == v@[m]);
        } else {
            assert(digits@[m] == v@[m + 1]);
        }
    }
    match crate::lexer::digits_u64(&digits, 0, digits.len()) {
        Some(n) => {
            assert(digits@.subrange(0, digits.len() as int) =~= digits@);
            Some((n, frac_len))
        },
        None => {
            assert(digits@.subrange(0, digits.len() as int) =~= digits@);
            None
        },
    }
}

fn exceeds_threshold(num: u64, den: u64, n: u64, k: usize) -> (r: bool)
    requires
        k <= 19,
    ensures
        r == exceeds(num, den, n as nat, k as nat),
{
    if den == 0 {
        return false;
    }
    let p = pow10_u64(k);
    assert(num * p <= 0xffff_ffff_ffff_ffffu64 * 0xffff_ffff_ffff_ffffu64) by (nonlinear_arith)
        requires
            num <= 0xffff_ffff_ffff_ffffu64,
            p <= 0xffff_ffff_ffff_ffffu64,
    ;
    assert(n * den <= 0xffff_ffff_ffff_ffffu64 * 0xffff_ffff_ffff_ffffu64) by (nonlinear_arith)
        requires
            n <= 0xffff_ffff_ffff_ffffu64,
            den <= 0xffff_ffff_ffff_ffffu64,
    ;
    (num as u128) * (p as u128) > (n as u128) * (den as u128)
}

fn confidence_of(scores: &Vec<Score>, label: &String) -> (r: (u64, u64))
    ensures
        r == confidence(scores_view(scores@), label@),
{
    let ghost sv = scores_view(scores@);
    let mut i: usize = 0;
    assert(sv.subrange(0, sv.len() as int) =~= sv);
    while i < scores.len()
        invariant
            i <= scores.len(),
            sv == scores_view(scores@),
            confidence(sv, label@) == confidence(sv.subrange(i as int, sv.len() as int), label@),
        decreases scores.len() - i,
    {
        let ghost rest = sv.subrange(i as int, sv.len() as int);
        assert(rest[0] == sv[i as int]);
        assert(rest.drop_first() =~= sv.subrange(i + 1, sv.len() as int));
        if crate::text::str_eq(scores[i].label.as_str(), label.as_str()) {
            return (scores[i].num, scores[i].den);
        }
        i = i + 1;
    }
    (0, 1)
}

/// The case that a branch takes (see [`select_case`]).
fn choose_case(scores: &Vec<Score>, cases: &Vec<(String, String, Vec<OpCode>)>) -> (r: Result<Option<usize>, VmError>)
    ensures
        match select_case(scores_view(scores@), arms_view(cases@), 0) {
            Ok(Some(i)) => 0 <= i < cases.len() && r == Ok::<Option<usize>, VmError>(Some(i as usize)),
            Ok(None) => r == Ok::<Option<usize>, VmError>(None),
            Err(e) => r matches Err(x) && vm_err_view(x) == e,
        },
        r matches Ok(Some(i)) ==> i < cases.len(),
{
    let ghost sv = scores_view(scores@);
    let ghost cv = arms_view(cases@);
    proof {
        lemma_arms_view_index(cases@);
    }
    let mut i: usize = 0;
    while i < cases.len()
        invariant
            i <= cases.len(),
            sv == scores_view(scores@),
            cv == arms_view(cases@),
            cv.len() == cases.len(),
            forall|j: int| 0 <= j < cases.len() ==> #[trigger] cv[j] == (cases@[j].0@, cases@[j].1@, ops_view(cases@[j].2@)),
            select_case(sv, cv, 0) == select_case(sv, cv, i as int),
        decreases cases.len() - i,
    {
        match threshold_of(&cases[i].1) {
            None => {
                return Err(VmError::BadThreshold(cases[i].1.clone()));
            },
            Some((n, k)) => {
                let (num, den) = confidence_of(scores, &cases[i].0);
                if exceeds_threshold(num, den, n, k) {
                    return Ok(Some(i));
                }
            },
        }
        i = i + 1;
    }
    Ok(None)
}

/// A fresh frame whose locals bind each parameter to its argument.
fn bind_frame(params: &Vec<String>, args: &Vec<Value>) -> (r: Frame)
    requires
        params.len() == args.len(),
    ensures
        r.fv() == (FrameV {
            stack: Seq::empty(),
            locals: bind_params(crate::ast::strings_view(params@), values_view(args@)),
            checkpoint: None,
        }),
{
    let ghost pv = crate::ast::strings_view(params@);
    let ghost av = values_view(args@);
    proof {
        crate::value::lemma_values_view_index(args@);
    }
    let mut f = Frame::new();
    let mut i = params.len();
    assert(pv.subrange(i as int, pv.len() as int) =~= Seq::<Seq<char>>::empty());
    while i > 0
        invariant
            i <= params.len(),
            params.len() == args.len(),
            pv == crate::ast::strings_view(params@),
            av == values_view(args@),
            av.len() == args.len(),
            forall|j: int| 0 <= j < args.len() ==> #[trigger] av[j] == value_view(args@[j]),
            f.fv() == (FrameV {
                stack: Seq::empty(),
                locals: bind_params(pv.subrange(i as int, pv.len() as int), av.subrange(i as int, av.len() as int)),
                checkpoint: None,
            }),
        decreases i,
    {
        let ghost (ps, as_) = (pv.subrange(i - 1, pv.len() as int), av.subrange(i - 1, av.len() as int));
        assert(ps.drop_first() =~= pv.subrange(i as int, pv.len() as int));
        assert(as_.drop_first() =~= av.subrange(i as int, av.len() as int));
        assert(ps[0] == params@[i - 1]@);
        assert(as_[0] == av[i - 1]);
        f.set_local(params[i - 1].clone(), copy_value(&args[i - 1]));
        i = i - 1;
    }
    assert(pv.subrange(0, pv.len() as int) =~= pv);
    assert(av.subrange(0, av.len() as int) =~= av);
    f
}

pub open spec fn unit_view(r: Result<(), VmError>) -> Result<(), VmErrV> {
    match r {
        Ok(()) => Ok(()),
        Err(e) => Err(vm_err_view(e)),
    }
}

impl<B: InferenceBackend, S: PersistentStore> Vm<B, S> {
    /// Runs `ops` in `frame` (see [`run_from`]).
    fn run(&mut self, bc: &Bytecode, ops: &Vec<OpCode>, frame: &mut Frame, fuel: u64) -> (r: Result<(), VmError>)
        requires
            old(self).wf(),
        ensures
            final(self).wf(),
            old(self).log().is_prefix_of(final(self).log()),
            forall|log: Seq<Exchange>|
                #![trigger run_from(bytecode_view(*bc), ops_view(ops@), 0, old(self).mv(), old(frame).fv(), log, fuel as nat)]
                final(self).log().is_prefix_of(log) ==> run_from(
                    bytecode_view(*bc),
                    ops_view(ops@),
                    0,
                    old(self).mv(),
                    old(frame).fv(),
                    log,
                    fuel as nat,
                ) == (unit_view(r), final(self).mv(), final(frame).fv()),
        decreases fuel, 1int,
    {
        let ghost bcv = bytecode_view(*bc);
        let ghost opsv = ops_view(ops@);
        let ghost m0 = self.mv();
        let ghost f0 = frame.fv();
        let ghost log0 = self.log();
        proof {
            lemma_ops_view_index(ops@);
        }
        let mut pc: usize = 0;
        let mut left: u64 = fuel;
        proof {
            lemma_prefix_refl(log0);
        }
        loop
            invariant
                left <= fuel,
                self.wf(),
                bcv == bytecode_view(*bc),
                opsv == ops_view(ops@),
                opsv.len() == ops.len(),
                forall|i: int| 0 <= i < ops.len() ==> #[trigger] opsv[i] == op_view(ops@[i]),
                log0.is_prefix_of(self.log()),
                log0 == old(self).log(),
                m0 == old(self).mv(),
                f0 == old(frame).fv(),
                forall|log: Seq<Exchange>|
                    #![trigger run_from(bcv, opsv, 0, m0, f0, log, fuel as nat)]
                    self.log().is_prefix_of(log) ==> run_from(bcv, opsv, 0, m0, f0, log, fuel as nat) == run_from(
                        bcv,
                        opsv,
                        pc as int,
                        self.mv(),
                        frame.fv(),
                        log,
                        left as nat,
                    ),
            decreases left,
        {
            if pc >= ops.len() {
                return Ok(());
            }
            if left == 0 {
                return Err(VmError::OutOfFuel);
            }
            let ghost m1 = self.mv();
            let ghost f1 = frame.fv();
            let ghost log1 = self.log();
            left = left - 1;
            let r = self.step(bc, &ops[pc], frame, left);
            proof {
                lemma_prefix_trans(log0, log1, self.log());
            }
            assert forall|log: Seq<Exchange>|
                #![trigger run_from(bcv, opsv, 0, m0, f0, log, fuel as nat)]
                self.log().is_prefix_of(log) implies run_from(bcv, opsv, 0, m0, f0, log, fuel as nat) == match r {
                    Ok(Flow::Next) => run_from(bcv, opsv, pc + 1, self.mv(), frame.fv(), log, left as nat),
                    Ok(Flow::Jump(t)) => run_from(bcv, opsv, t as int, self.mv(), frame.fv(), log, left as nat),
                    Ok(Flow::Stop) => (Ok(()), self.mv(), frame.fv()),
                    Err(e) => match frame.fv().checkpoint {
                        Some((st, lc)) => match block_exit(opsv, pc + 1, 0) {
                            Some(q) => run_from(
                                bcv,
                                opsv,
                                q,
                                self.mv(),
                                FrameV { stack: st, locals: lc, checkpoint: None },
                                log,
                                left as nat,
                            ),
                            None => (Err(vm_err_view(e)), self.mv(), frame.fv()),
                        },
                        None => (Err(vm_err_view(e)), self.mv(), frame.fv()),
                    },
                } by {
                lemma_prefix_trans(log1, self.log(), log);
                assert(step(bcv, opsv[pc as int], m1, f1, log, left as nat) == (flow_view(r), self.mv(), frame.fv()));
            }
            match r {
                Ok(Flow::Next) => {
                    pc = pc + 1;
                },
                Ok(Flow::Jump(t)) => {
                    pc = t;
                },
                Ok(Flow::Stop) => {
                    return Ok(());
                },
                Err(e) => {
                    if !frame.has_checkpoint() {
                        return Err(e);
                    }
                    match block_exit_of(ops, pc + 1) {
                        Some(q) => {
                            frame.restore_checkpoint();
                            pc = q;
                        },
                        None => {
                            return Err(e);
                        },
                    }
                },
            }
        }
    }

    /// One instruction (see [`step`]).
    fn step(&mut self, bc: &Bytecode, op: &OpCode, frame: &mut Frame, fuel: u64) -> (r: Result<Flow, VmError>)
        requires
            old(self).wf(),
        ensures
            final(self).wf(),
            old(self).log().is_prefix_of(final(self).log()),
            forall|log: Seq<Exchange>|
                #![trigger step(bytecode_view(*bc), op_view(*op), old(self).mv(), old(frame).fv(), log, fuel as nat)]
                final(self).log().is_prefix_of(log) ==> step(
                    bytecode_view(*bc),
                    op_view(*op),
                    old(self).mv(),
                    old(frame).fv(),
                    log,
                    fuel as nat,
                ) == (flow_view(r), final(self).mv(), final(frame).fv()),
        decreases fuel, 3int,
    {
        let ghost bcv = bytecode_view(*bc);
        let ghost m0 = self.mv();
        let ghost f0 = frame.fv();
        let ghost log0 = self.log();
        match op {
            OpCode::CallKernel(idx) => self.call_kernel(bc, *idx, frame, fuel),
            OpCode::BranchClassify { var, cases, default } => self.branch(bc, op, var, cases, default, frame, fuel),
            OpCode::CtxCompress | OpCode::InferClassify(_) | OpCode::Act | OpCode::CallOracle(_, _) => self.step_backend(
                op,
                frame,
            ),
            OpCode::CtxAlloc(_) | OpCode::CtxFreeStack | OpCode::CtxAppendStack | OpCode::CtxAppendLiteral(_) => {
                let r = self.step_heap(op, frame);
                assert(self.log() =~= log0);
                r
            },
            OpCode::CmpEq | OpCode::CmpNotEq | OpCode::CmpGt | OpCode::CmpLt | OpCode::Add | OpCode::Sub
            | OpCode::Mul | OpCode::Div | OpCode::Mod | OpCode::And | OpCode::Or => {
                let r = self.step_arith(op, frame);
                assert(self.log() =~= log0);
                r
            },
            OpCode::TuplePack(_) => {
                let r = self.step_tuple_pack(op, frame);
                assert(self.log() =~= log0);
                r
            },
            OpCode::VecNew(_) => {
                let r = self.step_vec_new(op, frame);
                assert(self.log() =~= log0);
                r
            },
            OpCode::VecGet => {
                let r = self.step_vec_get(op, frame);
                assert(self.log() =~= log0);
                r
            },
            OpCode::VecSet => {
                let r = self.step_vec_set(op, frame);
                assert(self.log() =~= log0);
                r
            },
            OpCode::VecLen => {
                let r = self.step_vec_len(op, frame);
                assert(self.log() =~= log0);
                r
            },
            OpCode::VecPush => {
                let r = self.step_vec_push(op, frame);
                assert(self.log() =~= log0);
                r
            },
            OpCode::FieldAccess(_) | OpCode::StructConstruct { .. } => {
                let r = self.step_fields(op, frame);
                assert(self.log() =~= log0);
                r
            },
            OpCode::Println | OpCode::PersistLoad | OpCode::PersistSave | OpCode::PersistDelete => {
                let r = self.step_io(op, frame);
                assert(self.log() =~= log0);
                r
            },
            _ => {
                let r = self.step_plain(op, frame);
                assert(self.log() =~= log0);
                r
            },
        }
    }

    /// `CallKernel`: binds the arguments, runs the kernel body, retrying it
    /// while it fails `verify`, and pushes its value.
    fn call_kernel(&mut self, bc: &Bytecode, idx: u16, frame: &mut Frame, fuel: u64) -> (r: Result<Flow, VmError>)
        requires
            old(self).wf(),
        ensures
            final(self).wf(),
            old(self).log().is_prefix_of(final(self).log()),
            forall|log: Seq<Exchange>|
                #![trigger step(bytecode_view(*bc), OpV::CallKernel(idx), old(self).mv(), old(frame).fv(), log, fuel as nat)]
                final(self).log().is_prefix_of(log) ==> step(
                    bytecode_view(*bc),
                    OpV::CallKernel(idx),
                    old(self).mv(),
                    old(frame).fv(),
                    log,
                    fuel as nat,
                ) == (flow_view(r), final(self).mv(), final(frame).fv()),
        decreases fuel, 2int,
    {
        let ghost bcv = bytecode_view(*bc);
        let ghost m0 = self.mv();
        let ghost f0 = frame.fv();
        let ghost log0 = self.log();
        proof {
            assert(bcv.kernels == kernels_view(bc.kernels@));
        }
        if idx as usize >= bc.kernels.len() {
            return Err(VmError::InvalidKernel(idx));
        }
        let k = &bc.kernels[idx as usize];
        let ghost kv = bcv.kernels[idx as int];
        assert(kv == kernel_view(*k));
        let np = k.params.len();
        assert(kv.params.len() == np);
        if frame.len() < np {
            return Err(VmError::StackUnderflow);
        }
        let args = frame.take_top(np);
        proof {
            crate::value::lemma_values_view_index(args@);
            lemma_prefix_refl(log0);
        }
        let ghost locals = bind_params(kv.params, top(f0, np as nat));
        let ghost f1 = frame.fv();
        let total: u64 = k.max_retries as u64 + 1;
        let mut tries: u64 = total;
        let ghost m_start = self.mv();
        loop
            invariant
                1 <= tries <= total,
                total == kv.max_retries + 1,
                self.wf(),
                bcv == bytecode_view(*bc),
                kv == kernel_view(*k),
                values_view(args@) == top(f0, np as nat),
                np == k.params.len(),
                args.len() == np,
                kv.params == crate::ast::strings_view(k.params@),
                locals == bind_params(kv.params, top(f0, np as nat)),
                frame.fv() == f1,
                m_start == m0,
                log0.is_prefix_of(self.log()),
                log0 == old(self).log(),
                m0 == old(self).mv(),
                f0 == old(frame).fv(),
                bcv.kernels[idx as int] == kv,
                idx < bcv.kernels.len(),
                locals == bind_params(kv.params, top(f0, np as nat)),
                f1 == drop_top(f0, np as nat),
                f0.stack.len() >= np,
                forall|log: Seq<Exchange>|
                    #![trigger attempts(bcv, kv.body, locals, total as nat, m0, log, fuel as nat)]
                    self.log().is_prefix_of(log) ==> attempts(bcv, kv.body, locals, total as nat, m0, log, fuel as nat)
                        == attempts(bcv, kv.body, locals, tries as nat, self.mv(), log, fuel as nat),
            decreases tries,
        {
            let mut attempt = bind_frame(&k.params, &args);
            let ghost m1 = self.mv();
            let ghost fa = attempt.fv();
            let ghost log1 = self.log();
            let r = self.run(bc, &k.body, &mut attempt, fuel);
            let ghost fr = attempt.fv();
            proof {
                lemma_prefix_trans(log0, log1, self.log());
                assert(kv.body == ops_view(k.body@));
                assert(fa == (FrameV { stack: Seq::empty(), locals, checkpoint: None }));
            }
            match r {
                Ok(()) => {
                    let v = attempt.pop();
                    let ghost fin = attempt.fv();
                    match v {
                        Some(v) => frame.push(v),
                        None => {},
                    }
                    assert forall|log: Seq<Exchange>|
                        #![trigger step(bcv, OpV::CallKernel(idx), m0, f0, log, fuel as nat)]
                        self.log().is_prefix_of(log) implies step(bcv, OpV::CallKernel(idx), m0, f0, log, fuel as nat)
                            == (flow_view(Ok(Flow::Next)), self.mv(), frame.fv()) by {
                        lemma_prefix_trans(log1, self.log(), log);
                        lemma_prefix_trans(log0, self.log(), log);
                        assert(run_from(bcv, kv.body, 0, m1, fa, log, fuel as nat) == (Ok::<(), VmErrV>(()), self.mv(), fr));
                        assert(attempts(bcv, kv.body, locals, total as nat, m0, log, fuel as nat) == attempts(
                            bcv,
                            kv.body,
                            locals,
                            tries as nat,
                            m1,
                            log,
                            fuel as nat,
                        ));
                    }
                    return Ok(Flow::Next);
                },
                Err(VmError::VerifyFail) => {
                    if tries > 1 {
                        assert forall|log: Seq<Exchange>|
                            #![trigger attempts(bcv, kv.body, locals, total as nat, m0, log, fuel as nat)]
                            self.log().is_prefix_of(log) implies attempts(bcv, kv.body, locals, total as nat, m0, log, fuel as nat)
                                == attempts(bcv, kv.body, locals, (tries - 1) as nat, self.mv(), log, fuel as nat) by {
                            lemma_prefix_trans(log1, self.log(), log);
                            assert(log1.is_prefix_of(log));
                            assert(attempts(bcv, kv.body, locals, total as nat, m0, log, fuel as nat) == attempts(
                                bcv,
                                kv.body,
                                locals,
                                tries as nat,
                                m1,
                                log,
                                fuel as nat,
                            ));
                            assert(run_from(bcv, kv.body, 0, m1, fa, log, fuel as nat) == (Err::<(), VmErrV>(VmErrV::VerifyFail), self.mv(), fr));
                        }
                        tries = tries - 1;
                    } else {
                        assert forall|log: Seq<Exchange>|
                            #![trigger step(bcv, OpV::CallKernel(idx), m0, f0, log, fuel as nat)]
                            self.log().is_prefix_of(log) implies step(bcv, OpV::CallKernel(idx), m0, f0, log, fuel as nat)
                                == (flow_view(Err(VmError::VerifyFail)), self.mv(), frame.fv()) by {
                            lemma_prefix_trans(log1, self.log(), log);
                            assert(log1.is_prefix_of(log));
                            assert(attempts(bcv, kv.body, locals, total as nat, m0, log, fuel as nat) == attempts(
                                bcv,
                                kv.body,
                                locals,
                                tries as nat,
                                m1,
                                log,
                                fuel as nat,
                            ));
                            assert(run_from(bcv, kv.body, 0, m1, fa, log, fuel as nat) == (Err::<(), VmErrV>(VmErrV::VerifyFail), self.mv(), fr));
                        }
                        return Err(VmError::VerifyFail);
                    }
                },
                Err(e) => {
                    assert forall|log: Seq<Exchange>|
                        #![trigger step(bcv, OpV::CallKernel(idx), m0, f0, log, fuel as nat)]
                        self.log().is_prefix_of(log) implies step(bcv, OpV::CallKernel(idx), m0, f0, log, fuel as nat)
                            == (flow_view(Err(e)), self.mv(), frame.fv()) by {
                        lemma_prefix_trans(log1, self.log(), log);
                        assert(log1.is_prefix_of(log));
                        assert(attempts(bcv, kv.body, locals, total as nat, m0, log, fuel as nat) == attempts(
                            bcv,
                            kv.body,
                            locals,
                            tries as nat,
                            m1,
                            log,
                            fuel as nat,
                        ));
                        assert(run_from(bcv, kv.body, 0, m1, fa, log, fuel as nat) == (Err::<(), VmErrV>(vm_err_view(e)), self.mv(), fr));
                    }
                    return Err(e);
                },
            }
        }
    }

    /// `BranchClassify`: classifies the subject, then runs the first case
    /// whose threshold its label's confidence exceeds, or the default.
    fn branch(
        &mut self,
        bc: &Bytecode,
        op: &OpCode,
        var: &String,
        cases: &Vec<(String, String, Vec<OpCode>)>,
        default: &Vec<OpCode>,
        frame: &mut Frame,
        fuel: u64,
    ) -> (r: Result<Flow, VmError>)
        requires
            old(self).wf(),
            *op == (OpCode::BranchClassify { var: *var, cases: *cases, default: *default }),
        ensures
            final(self).wf(),
            old(self).log().is_prefix_of(final(self).log()),
            forall|log: Seq<Exchange>|
                #![trigger step(bytecode_view(*bc), op_view(*op), old(self).mv(), old(frame).fv(), log, fuel as nat)]
                final(self).log().is_prefix_of(log) ==> step(
                    bytecode_view(*bc),
                    op_view(*op),
                    old(self).mv(),
                    old(frame).fv(),
                    log,
                    fuel as nat,
                ) == (flow_view(r), final(self).mv(), final(frame).fv()),
        decreases fuel, 2int,
    {
        let ghost bcv = bytecode_view(*bc);
        let ghost m0 = self.mv();
        let ghost f0 = frame.fv();
        let ghost log0 = self.log();
        let ghost cv = arms_view(cases@);
        proof {
            lemma_arms_view_index(cases@);
        }
        let mut labels: Vec<String> = Vec::new();
        let mut i: usize = 0;
        while i < cases.len()
            invariant
                i <= cases.len(),
                cv == arms_view(cases@),
                cv.len() == cases.len(),
                forall|j: int| 0 <= j < cases.len() ==> #[trigger] cv[j] == (cases@[j].0@, cases@[j].1@, ops_view(cases@[j].2@)),
                labels.len() == i,
                forall|j: int| 0 <= j < i ==> (#[trigger] labels@[j])@ == cv[j].0,
            decreases cases.len() - i,
        {
            labels.push(cases[i].0.clone());
            i = i + 1;
        }
        let ghost lv = cv.map_values(|c: (Seq<char>, Seq<char>, Seq<OpV>)| c.0);
        assert(crate::ast::strings_view(labels@) =~= lv);
        let prompt = match frame.local(var.as_str()) {
            Some(v) => self.text(v),
            None => var.clone(),
        };
        let reply = self.backend.classify(prompt.as_str(), &labels);
        let ghost req = Request::Classify(prompt@, lv);
        self.log_scores(Ghost(req), &reply);
        let ghost x = Exchange { request: req, reply: Reply::Scores(scores_result(reply)) };
        proof {
            lemma_prefix_push(log0, x);
        }
        let scores = match reply {
            Ok(s) => s,
            Err(e) => {
                let r = Err(VmError::Backend(e.message));
                assert forall|log: Seq<Exchange>|
                    #![trigger step(bcv, op_view(*op), m0, f0, log, fuel as nat)]
                    self.log().is_prefix_of(log) implies step(bcv, op_view(*op), m0, f0, log, fuel as nat) == (
                    flow_view(r),
                    self.mv(),
                    frame.fv(),
                ) by {
                    lemma_logged(log0, x, log);
                }
                return r;
            },
        };
        let ghost sv = scores_view(scores@);
        let _ = frame.pop();
        let ghost m1 = self.mv();
        let ghost f1 = frame.fv();
        let ghost log1 = self.log();
        let sel = match choose_case(&scores, cases) {
            Ok(sel) => sel,
            Err(e) => {
                let r = Err(e);
                assert forall|log: Seq<Exchange>|
                    #![trigger step(bcv, op_view(*op), m0, f0, log, fuel as nat)]
                    self.log().is_prefix_of(log) implies step(bcv, op_view(*op), m0, f0, log, fuel as nat) == (
                    flow_view(r),
                    self.mv(),
                    frame.fv(),
                ) by {
                    lemma_logged(log0, x, log);
                }
                return r;
            },
        };
        let body = match sel {
            Some(i) => &cases[i].2,
            None => default,
        };
        let ghost bodyv = ops_view(body@);
        proof {
            match sel {
                Some(i) => assert(bodyv == cv[i as int].2),
                None => {},
            }
        }
        let rr = self.run(bc, body, frame, fuel);
        let r = match rr {
            Ok(()) => Ok(Flow::Next),
            Err(e) => Err(e),
        };
        proof {
            lemma_prefix_trans(log0, log1, self.log());
        }
        assert forall|log: Seq<Exchange>|
            #![trigger step(bcv, op_view(*op), m0, f0, log, fuel as nat)]
            self.log().is_prefix_of(log) implies step(bcv, op_view(*op), m0, f0, log, fuel as nat) == (
            flow_view(r),
            self.mv(),
            frame.fv(),
        ) by {
            lemma_prefix_trans(log1, self.log(), log);
            lemma_logged(log0, x, log);
            assert(scores_reply(log, m0.rp, req) == Ok::<Seq<ScoreV>, Seq<char>>(sv));
            assert(op_view(*op) == (OpV::BranchClassify { var: var@, cases: cv, default: ops_view(default@) }));
            assert(select_case(sv, cv, 0) == Ok::<Option<int>, VmErrV>(
                match sel {
                    Some(i) => Some(i as int),
                    None => None,
                },
            ));
            assert(f1 == (if f0.stack.len() > 0 {
                popped(f0)
            } else {
                f0
            }));
            assert(m1 == (MachineV { rp: m0.rp + 1, ..m0 }));
            assert(run_from(bcv, bodyv, 0, m1, f1, log, fuel as nat) == (unit_view(rr), self.mv(), frame.fv()));
        }
        r
    }
}

/// A frame with nothing on the stack and no locals.
pub open spec fn empty_frame() -> FrameV {
    FrameV { stack: Seq::empty(), locals: Map::empty(), checkpoint: None }
}

/// What running the program in `bytes` does, given the backend's answers in
/// `log`: `None` when the bytes are not a program, else the outcome and the
/// machine state after the main instructions ran from an empty frame.
pub open spec fn program_run(bytes: Seq<u8>, m: MachineV, log: Seq<Exchange>) -> Option<(Result<(), VmErrV>, MachineV)> {
    match dec_bytecode(bytes) {
        None => None,
        Some((bc, _)) => {
            let (r, m2, _) = run_from(bc, bc.instructions, 0, m, empty_frame(), log, u64::MAX as nat);
            Some((r, m2))
        },
    }
}

impl<B: InferenceBackend, S: PersistentStore> Vm<B, S> {
    /// Executes the program encoded in `bytes`: its main instructions, in a
    /// fresh frame. Bytes that are not a program give `Decode` and change
    /// nothing.
    pub fn execute(&mut self, bytes: &Vec<u8>) -> (r: Result<(), VmError>)
        requires
            old(self).wf(),
        ensures
            final(self).wf(),
            forall|i: int|
                0 <= i < final(self).log().len() ==> final(self).held_backend().answered(
                    #[trigger] final(self).log()[i].request,
                    final(self).log()[i].reply,
                ),
            old(self).log().is_prefix_of(final(self).log()),
            match program_run(bytes@, old(self).mv(), final(self).log()) {
                None => r matches Err(VmError::Decode) && final(self).mv() == old(self).mv(),
                Some((res, m)) => unit_view(r) == res && final(self).mv() == m,
            },
    {
        let bc = match decode_bytecode(bytes) {
            Some(bc) => bc,
            None => {
                proof {
                    lemma_prefix_refl(self.log());
                }
                return Err(VmError::Decode);
            },
        };
        let mut frame = Frame::new();
        let r = self.run(&bc, &bc.instructions, &mut frame, u64::MAX);
        proof {
            lemma_prefix_refl(self.log());
            assert(bytecode_view(bc).instructions == ops_view(bc.instructions@));
        }
        r
    }
}

/// The text of a machine error.
pub open spec fn vm_error_text(e: VmErrV) -> Seq<char> {
    match e {
        VmErrV::Decode => "bytecode deserialization failed"@,
        VmErrV::StackUnderflow => "stack underflow"@,
        VmErrV::ExpectedStr => "expected Str on stack"@,
        VmErrV::ExpectedCtxHandle => "expected CtxHandle on stack"@,
        VmErrV::HandlesExhausted => "context handles exhausted"@,
        VmErrV::ConstraintViolation => "ConstraintViolation"@,
        VmErrV::VerifyFail => "VerifyFail"@,
        VmErrV::DivisionByZero => "division by zero"@,
        VmErrV::ModuloByZero => "modulo by zero"@,
        VmErrV::ArithmeticOverflow => "arithmetic overflow"@,
        VmErrV::DecimalArithmetic => "arithmetic on decimal values is not supported"@,
        VmErrV::InvalidOperands => "invalid operands for arithmetic"@,
        VmErrV::TupleIndexOutOfBounds => "tuple index out of bounds"@,
        VmErrV::NotAStructOrTuple => "cannot access a field of a value that is no struct or tuple"@,
        VmErrV::VectorIndexNotInteger => "vector index must be an integer"@,
        VmErrV::VectorIndexOutOfBounds => "vector index out of bounds"@,
        VmErrV::NotAVector => "not a vector value"@,
        VmErrV::OutOfFuel => "step limit reached"@,
        VmErrV::UndefinedLocal(x) => "undefined local: `"@ + x + "`"@,
        VmErrV::NotATupleIndex(x) => "cannot access field `"@ + x + "` on tuple"@,
        VmErrV::NoSuchField(x) => "no field `"@ + x + "`"@,
        VmErrV::BadThreshold(x) => "invalid branch threshold `"@ + x + "`"@,
        VmErrV::Heap(h) => crate::heap::heap_error_text(h),
        VmErrV::Backend(m) => m,
        VmErrV::InvalidKernel(k) => "invalid kernel index "@ + crate::text::nat_digits(k as nat),
    }
}

impl VmError {
    /// The error's text (see [`vm_error_text`]).
    pub fn message(&self) -> (r: String)
        ensures
            r@ == vm_error_text(vm_err_view(*self)),
    {
        match self {
            VmError::Decode => String::from_str("bytecode deserialization failed"),
            VmError::StackUnderflow => String::from_str("stack underflow"),
            VmError::ExpectedStr => String::from_str("expected Str on stack"),
            VmError::ExpectedCtxHandle => String::from_str("expected CtxHandle on stack"),
            VmError::HandlesExhausted => String::from_str("context handles exhausted"),
            VmError::ConstraintViolation => String::from_str("ConstraintViolation"),
            VmError::VerifyFail => String::from_str("VerifyFail"),
            VmError::DivisionByZero => String::from_str("division by zero"),
            VmError::ModuloByZero => String::from_str("modulo by zero"),
            VmError::ArithmeticOverflow => String::from_str("arithmetic overflow"),
            VmError::DecimalArithmetic => String::from_str("arithmetic on decimal values is not supported"),
            VmError::InvalidOperands => String::from_str("invalid operands for arithmetic"),
            VmError::TupleIndexOutOfBounds => String::from_str("tuple index out of bounds"),
            VmError::NotAStructOrTuple => String::from_str("cannot access a field of a value that is no struct or tuple"),
            VmError::VectorIndexNotInteger => String::from_str("vector index must be an integer"),
            VmError::VectorIndexOutOfBounds => String::from_str("vector index out of bounds"),
            VmError::NotAVector => String::from_str("not a vector value"),
            VmError::OutOfFuel => String::from_str("step limit reached"),
            VmError::UndefinedLocal(x) => crate::text::concat3("undefined local: `", x.as_str(), "`"),
            VmError::NotATupleIndex(x) => crate::text::concat3("cannot access field `", x.as_str(), "` on tuple"),
            VmError::NoSuchField(x) => crate::text::concat3("no field `", x.as_str(), "`"),
            VmError::BadThreshold(x) => crate::text::concat3("invalid branch threshold `", x.as_str(), "`"),
            VmError::Heap(h) => h.message(),
            VmError::Backend(m) => m.clone(),
            VmError::InvalidKernel(k) => {
                let d = crate::text::u64_to_string(*k as u64);
                crate::text::concat2("invalid kernel index ", d.as_str())
            },
        }
    }
}

// ── Laws of the persistent memory ────────────────────────────────────────────

/// What `memory_save` stores under a key, a later `memory_load` of that key
/// gives back, when a store is attached.
pub proof fn law_persist_save_then_load(
    bc: BytecodeV,
    m: MachineV,
    f: FrameV,
    key: Seq<char>,
    value: Seq<char>,
    log: Seq<Exchange>,
    fuel: nat,
)
    requires
        m.store is Some,
        f.stack.len() >= 2,
        f.stack[f.stack.len() - 2] == ValueV::Str(key),
        f.stack.last() == ValueV::Str(value),
    ensures
        ({
            let (r1, m1, f1) = step(bc, OpV::PersistSave, m, f, log, fuel);
            &&& r1 == Ok::<Flow, VmErrV>(Flow::Next)
            &&& f1 == drop_top(f, 2)
            &&& step(bc, OpV::PersistLoad, m1, push(f1, ValueV::Str(key)), log, fuel) == (
                Ok::<Flow, VmErrV>(Flow::Next),
                m1,
                push(f1, ValueV::Str(value)),
            )
        }),
{
    let (r1, m1, f1) = step(bc, OpV::PersistSave, m, f, log, fuel);
    let g = push(f1, ValueV::Str(key));
    assert(g.stack.last() == ValueV::Str(key));
    assert(popped(g) =~= f1);
    assert(m1.store->0.contains_key(key));
}

/// After `memory_delete` of a key, `memory_load` of it gives the empty
/// string.
pub proof fn law_persist_delete_then_load(
    bc: BytecodeV,
    m: MachineV,
    f: FrameV,
    key: Seq<char>,
    log: Seq<Exchange>,
    fuel: nat,
)
    requires
        f.stack.len() >= 1,
        f.stack.last() == ValueV::Str(key),
    ensures
        ({
            let (r1, m1, f1) = step(bc, OpV::PersistDelete, m, f, log, fuel);
            &&& r1 == Ok::<Flow, VmErrV>(Flow::Next)
            &&& f1 == popped(f)
            &&& step(bc, OpV::PersistLoad, m1, push(f1, ValueV::Str(key)), log, fuel) == (
                Ok::<Flow, VmErrV>(Flow::Next),
                m1,
                push(f1, ValueV::Str(Seq::empty())),
            )
        }),
{
    let (r1, m1, f1) = step(bc, OpV::PersistDelete, m, f, log, fuel);
    let g = push(f1, ValueV::Str(key));
    assert(g.stack.last() == ValueV::Str(key));
    assert(popped(g) =~= f1);
}

/// Without a store, `memory_save` is a no-op on the machine and
/// `memory_load` gives the empty string.
pub proof fn law_persist_without_store(
    bc: BytecodeV,
    m: MachineV,
    f: FrameV,
    key: Seq<char>,
    log: Seq<Exchange>,
    fuel: nat,
)
    requires
        m.store is None,
        f.stack.len() >= 1,
        f.stack.last() == ValueV::Str(key),
    ensures
        step(bc, OpV::PersistLoad, m, f, log, fuel) == (
            Ok::<Flow, VmErrV>(Flow::Next),
            m,
            push(popped(f), ValueV::Str(Seq::empty())),
        ),
{
}

// ── Laws of the token heap on the machine ────────────────────────────────────

/// `ctx_alloc` followed by `ctx_free` of the handle it pushed gives the
/// budget back: the machine's segments and charged tokens are as before,
/// and the stack is as before; only the next handle has moved on.
pub proof fn law_ctx_alloc_then_free(
    bc: BytecodeV,
    m: MachineV,
    f: FrameV,
    tokens: u32,
    log: Seq<Exchange>,
    fuel: nat,
)
    requires
        tokens as usize <= hv_available(m.heap),
        m.heap.next < u32::MAX,
        forall|i: int| 0 <= i < m.heap.segs.len() ==> #[trigger] m.heap.segs[i].id < m.heap.next,
    ensures
        ({
            let (r1, m1, f1) = step(bc, OpV::CtxAlloc(tokens), m, f, log, fuel);
            let (r2, m2, f2) = step(bc, OpV::CtxFreeStack, m1, f1, log, fuel);
            &&& r1 == Ok::<Flow, VmErrV>(Flow::Next)
            &&& f1 == push(f, ValueV::CtxHandle(m.heap.next))
            &&& r2 == Ok::<Flow, VmErrV>(Flow::Next)
            &&& f2 == f
            &&& m2 == MachineV { heap: HeapV { next: (m.heap.next + 1) as u32, ..m.heap }, ..m }
        }),
{
    let (r1, m1, f1) = step(bc, OpV::CtxAlloc(tokens), m, f, log, fuel);
    let s = m.heap.segs;
    let n = s.len() as int;
    let s1 = m1.heap.segs;
    assert(s1 == s.push(SegView { id: m.heap.next, capacity: tokens as nat, content: Seq::empty() }));
    assert(s1[n].id == m.heap.next);
    assert forall|j: int| 0 <= j < s1.len() && s1[j].id == m.heap.next implies j == n by {
        if j < n {
            assert(s1[j] == s[j]);
        }
    }
    assert(seg_index(s1, m.heap.next) == Some(n));
    assert(s1.remove(n) =~= s);
    assert(f1.stack.last() == ValueV::CtxHandle(m.heap.next));
    assert(popped(f1) =~= f);
}

// ── Laws of integer arithmetic and comparison on the machine ─────────────────

/// Integer arithmetic on the machine is arithmetic on the integers: with
/// `a` below `b` (on top) on the stack, `Add`, `Sub`, `Mul`, `Div` and `Mod`
/// replace them by `a + b`, `a - b`, `a * b`, `a / b` and `a % b` when the
/// result is an unsigned 64-bit integer, and fail otherwise (overflow, or a
/// zero divisor).
pub proof fn law_int_arithmetic(
    bc: BytecodeV,
    m: MachineV,
    f: FrameV,
    a: u64,
    b: u64,
    log: Seq<Exchange>,
    fuel: nat,
)
    requires
        f.stack.len() >= 2,
        f.stack[f.stack.len() - 2] == ValueV::Int(a),
        f.stack.last() == ValueV::Int(b),
    ensures
        a + b <= u64::MAX ==> step(bc, OpV::Add, m, f, log, fuel) == (
            Ok::<Flow, VmErrV>(Flow::Next),
            m,
            push(drop_top(f, 2), ValueV::Int((a + b) as u64)),
        ),
        a + b > u64::MAX ==> step(bc, OpV::Add, m, f, log, fuel).0 == Err::<Flow, VmErrV>(VmErrV::ArithmeticOverflow),
        a >= b ==> step(bc, OpV::Sub, m, f, log, fuel) == (
            Ok::<Flow, VmErrV>(Flow::Next),
            m,
            push(drop_top(f, 2), ValueV::Int((a - b) as u64)),
        ),
        a < b ==> step(bc, OpV::Sub, m, f, log, fuel).0 == Err::<Flow, VmErrV>(VmErrV::ArithmeticOverflow),
        a * b <= u64::MAX ==> step(bc, OpV::Mul, m, f, log, fuel) == (
            Ok::<Flow, VmErrV>(Flow::Next),
            m,
            push(drop_top(f, 2), ValueV::Int((a * b) as u64)),
        ),
        a * b > u64::MAX ==> step(bc, OpV::Mul, m, f, log, fuel).0 == Err::<Flow, VmErrV>(VmErrV::ArithmeticOverflow),
        b != 0 ==> step(bc, OpV::Div, m, f, log, fuel) == (
            Ok::<Flow, VmErrV>(Flow::Next),
            m,
            push(drop_top(f, 2), ValueV::Int(a / b)),
        ),
        b != 0 ==> step(bc, OpV::Mod, m, f, log, fuel) == (
            Ok::<Flow, VmErrV>(Flow::Next),
            m,
            push(drop_top(f, 2), ValueV::Int(a % b)),
        ),
        b == 0 ==> step(bc, OpV::Div, m, f, log, fuel).0 == Err::<Flow, VmErrV>(VmErrV::DivisionByZero),
        b == 0 ==> step(bc, OpV::Mod, m, f, log, fuel).0 == Err::<Flow, VmErrV>(VmErrV::ModuloByZero),
{
}

/// Integer comparison on the machine: with `a` below `b` (on top), each
/// comparison replaces them by 1 when `a` stands in that relation to `b`,
/// and by 0 otherwise.
pub proof fn law_int_comparison(
    bc: BytecodeV,
    m: MachineV,
    f: FrameV,
    a: u64,
    b: u64,
    log: Seq<Exchange>,
    fuel: nat,
)
    requires
        f.stack.len() >= 2,
        f.stack[f.stack.len() - 2] == ValueV::Int(a),
        f.stack.last() == ValueV::Int(b),
    ensures
        step(bc, OpV::CmpGt, m, f, log, fuel) == (
            Ok::<Flow, VmErrV>(Flow::Next),
            m,
            push(drop_top(f, 2), ValueV::Int(if a > b { 1 } else { 0 })),
        ),
        step(bc, OpV::CmpLt, m, f, log, fuel) == (
            Ok::<Flow, VmErrV>(Flow::Next),
            m,
            push(drop_top(f, 2), ValueV::Int(if a < b { 1 } else { 0 })),
        ),
        step(bc, OpV::CmpEq, m, f, log, fuel) == (
            Ok::<Flow, VmErrV>(Flow::Next),
            m,
            push(drop_top(f, 2), ValueV::Int(if a == b { 1 } else { 0 })),
        ),
        step(bc, OpV::CmpNotEq, m, f, log, fuel) == (
            Ok::<Flow, VmErrV>(Flow::Next),
            m,
            push(drop_top(f, 2), ValueV::Int(if a != b { 1 } else { 0 })),
        ),
{
}

/// The instruction generated for a binary operator computes that operator:
/// run on integers `a` (below) and `b` (on top), the code for `>`, `<`,
/// `==`, `!=` leaves 1 exactly when the relation holds (0 otherwise), and
/// the code for `+`, `-`, `*`, `/`, `%` leaves the integer result whenever
/// it is an unsigned 64-bit integer.
pub proof fn law_generated_operator_computes(
    op: BinOp,
    bc: BytecodeV,
    m: MachineV,
    f: FrameV,
    a: u64,
    b: u64,
    log: Seq<Exchange>,
    fuel: nat,
)
    requires
        f.stack.len() >= 2,
        f.stack[f.stack.len() - 2] == ValueV::Int(a),
        f.stack.last() == ValueV::Int(b),
    ensures
        ({
            let out = step(bc, binop_op(op), m, f, log, fuel);
            let rest = drop_top(f, 2);
            &&& op == BinOp::Gt ==> out == (Ok::<Flow, VmErrV>(Flow::Next), m, push(rest, ValueV::Int(if a > b { 1 } else { 0 })))
            &&& op == BinOp::Lt ==> out == (Ok::<Flow, VmErrV>(Flow::Next), m, push(rest, ValueV::Int(if a < b { 1 } else { 0 })))
            &&& op == BinOp::Eq ==> out == (Ok::<Flow, VmErrV>(Flow::Next), m, push(rest, ValueV::Int(if a == b { 1 } else { 0 })))
            &&& op == BinOp::NotEq ==> out == (Ok::<Flow, VmErrV>(Flow::Next), m, push(rest, ValueV::Int(if a != b { 1 } else { 0 })))
            &&& op == BinOp::Add && a + b <= u64::MAX ==> out == (Ok::<Flow, VmErrV>(Flow::Next), m, push(rest, ValueV::Int((a + b) as u64)))
            &&& op == BinOp::Sub && a >= b ==> out == (Ok::<Flow, VmErrV>(Flow::Next), m, push(rest, ValueV::Int((a - b) as u64)))
            &&& op == BinOp::Mul && a * b <= u64::MAX ==> out == (Ok::<Flow, VmErrV>(Flow::Next), m, push(rest, ValueV::Int((a * b) as u64)))
            &&& op == BinOp::Div && b != 0 ==> out == (Ok::<Flow, VmErrV>(Flow::Next), m, push(rest, ValueV::Int(a / b)))
            &&& op == BinOp::Mod && b != 0 ==> out == (Ok::<Flow, VmErrV>(Flow::Next), m, push(rest, ValueV::Int(a % b)))
        }),
{
    law_int_arithmetic(bc, m, f, a, b, log, fuel);
    law_int_comparison(bc, m, f, a, b, log, fuel);
}

/// Logic on the machine: with booleans `a` below `b` (on top), `And` and
/// `Or` (and the code generated for `&&` and `||`) replace them by
/// `a && b` and `a || b`.
pub proof fn law_bool_logic(
    bc: BytecodeV,
    m: MachineV,
    f: FrameV,
    a: bool,
    b: bool,
    log: Seq<Exchange>,
    fuel: nat,
)
    requires
        f.stack.len() >= 2,
        f.stack[f.stack.len() - 2] == ValueV::Bool(a),
        f.stack.last() == ValueV::Bool(b),
    ensures
        step(bc, OpV::And, m, f, log, fuel) == (Ok::<Flow, VmErrV>(Flow::Next), m, push(drop_top(f, 2), ValueV::Bool(a && b))),
        step(bc, OpV::Or, m, f, log, fuel) == (Ok::<Flow, VmErrV>(Flow::Next), m, push(drop_top(f, 2), ValueV::Bool(a || b))),
        step(bc, binop_op(BinOp::And), m, f, log, fuel) == (
            Ok::<Flow, VmErrV>(Flow::Next),
            m,
            push(drop_top(f, 2), ValueV::Bool(a && b)),
        ),
        step(bc, binop_op(BinOp::Or), m, f, log, fuel) == (
            Ok::<Flow, VmErrV>(Flow::Next),
            m,
            push(drop_top(f, 2), ValueV::Bool(a || b)),
        ),
{
}

} // verus!
