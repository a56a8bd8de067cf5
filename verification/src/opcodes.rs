//! The instruction set, and the compiled program that code generation produces
//! and the virtual machine runs.
use vstd::prelude::*;
use crate::ast::strings_view;

verus! {

/// The instruction set of the virtual machine.
#[derive(Debug)]
pub enum OpCode {
    /// Push a string literal onto the stack.
    PushStr(String),
    /// Push an unsigned 64-bit integer literal onto the stack.
    PushInt(u64),
    /// Push a decimal literal (kept as written) onto the stack.
    PushFloat(String),
    /// Pop TOS and store it in a named local variable slot.
    StoreLocal(String),
    /// Push the value of a named local variable onto the stack.
    LoadLocal(String),
    /// Allocate a context segment of `n` tokens; push a `CtxHandle`.
    CtxAlloc(u32),
    /// Pop a `CtxHandle` and free the segment.
    CtxFreeStack,
    /// Pop a string (TOS) then a `CtxHandle` (next) and append the string.
    CtxAppendStack,
    /// Pop a `CtxHandle`, compress the segment via the inference backend, and replace its content.
    CtxCompress,
    /// Resize the context segment at the given register index.
    CtxResize(u8, u32),
    /// Return from a function or kernel; TOS becomes the return value.
    Return,
    /// Halt the top-level program.
    Halt,
    /// Unconditional jump to the given instruction index.
    Jump(usize),
    /// Jump to the given instruction index if TOS is falsy.
    JumpIfFalse(usize),
    /// Call a kernel by index into the kernel table.
    CallKernel(u16),
    /// Pop TOS and print it.
    Println,
    /// Classify the subject `var` against the case labels, then run the first case body whose confidence exceeds its threshold, or `default`.
    BranchClassify { var: String, cases: Vec<(String, String, Vec<OpCode>)>, default: Vec<OpCode> },
    /// Classify the top-of-stack prompt against `labels`; push the winning label.
    InferClassify(Vec<String>),
    /// Pop TOS (observation payload) and hand it to the inference backend.
    Observe,
    /// A reasoning annotation; no effect.
    Reason(String),
    /// Pop TOS (action payload) and execute an action via the inference backend.
    Act,
    /// Pop TOS; if falsy, raise a `VerifyFail` signal so the enclosing kernel retries.
    VerifyStep,
    /// Save a checkpoint of the current frame.
    BeginInterruptible,
    /// Clear the saved checkpoint.
    EndInterruptible,
    /// Pop rhs then lhs; push `Int(1)` if lhs == rhs, else `Int(0)`.
    CmpEq,
    /// Pop rhs then lhs; push `Int(1)` if lhs != rhs, else `Int(0)`.
    CmpNotEq,
    /// Pop rhs then lhs; push `Int(1)` if lhs > rhs, else `Int(0)`.
    CmpGt,
    /// Pop rhs then lhs; push `Int(1)` if lhs < rhs, else `Int(0)`.
    CmpLt,
    /// Pop rhs and lhs, push lhs + rhs.
    Add,
    /// Pop rhs and lhs, push lhs - rhs.
    Sub,
    /// Pop rhs and lhs, push lhs * rhs.
    Mul,
    /// Pop rhs and lhs, push lhs / rhs.
    Div,
    /// Pop rhs and lhs, push lhs % rhs.
    Mod,
    /// Pop rhs and lhs, push lhs && rhs.
    And,
    /// Pop rhs and lhs, push lhs || rhs.
    Or,
    /// Push a boolean value.
    PushBool(bool),
    /// Pop N values and pack them into a tuple.
    TuplePack(u8),
    /// Create a vector from the top N values on the stack.
    VecNew(u8),
    /// Pop index (TOS) and vector (next), push the element at index.
    VecGet,
    /// Pop index (TOS), vector (next) and value (next); store value at index.
    VecSet,
    /// Pop a vector, push its length.
    VecLen,
    /// Pop value (TOS) and vector (next); push the vector with the value appended.
    VecPush,
    /// Pop a struct or tuple, push the named field's value.
    FieldAccess(String),
    /// Pop the field values (in declaration order) and pack them into a struct.
    StructConstruct { name: String, field_names: Vec<String> },
    /// Push an enum variant value.
    EnumVariant { variant: String, payload: bool },
    /// Store the agent soul identity string in the VM.
    SetAgentMeta(String),
    /// Append a literal string to the context handle named `ctx` in scope, if any.
    CtxAppendLiteral(String),
    /// Record a skill name (no runtime effect).
    RegisterSkill(String),
    /// Pop TOS (initial value) and allocate a named memory slot.
    AllocMemorySlot(String),
    /// Push the value of a named memory slot.
    LoadMemory(String),
    /// Pop TOS and store it in a named memory slot.
    StoreMemory(String),
    /// Pop N arguments and call a named oracle; push the result string.
    CallOracle(String, u8),
    /// Mark the start of a named constraint block.
    BeginConstraint(String),
    /// Mark the end of a constraint block.
    EndConstraint,
    /// Pop TOS; if falsy, abort with a non-retriable `ConstraintViolation`.
    ConstraintVerify,
    /// Pop a key; push the persisted value, or an empty string if absent.
    PersistLoad,
    /// Pop a value then a key; persist the pair.
    PersistSave,
    /// Pop a key; delete it from the persistent store.
    PersistDelete,
    /// Store a lore entry (`name → text`).
    StoreLore(String, String),
    /// Push a lore string by name.
    LoadLore(String),
    /// Duplicate the top-of-stack context handle.
    CtxShare,
}

pub enum OpV {
    PushStr(Seq<char>),
    PushInt(u64),
    PushFloat(Seq<char>),
    StoreLocal(Seq<char>),
    LoadLocal(Seq<char>),
    CtxAlloc(u32),
    CtxFreeStack,
    CtxAppendStack,
    CtxCompress,
    CtxResize(u8, u32),
    Return,
    Halt,
    Jump(usize),
    JumpIfFalse(usize),
    CallKernel(u16),
    Println,
    BranchClassify { var: Seq<char>, cases: Seq<(Seq<char>, Seq<char>, Seq<OpV>)>, default: Seq<OpV> },
    InferClassify(Seq<Seq<char>>),
    Observe,
    Reason(Seq<char>),
    Act,
    VerifyStep,
    BeginInterruptible,
    EndInterruptible,
    CmpEq,
    CmpNotEq,
    CmpGt,
    CmpLt,
    Add,
    Sub,
    Mul,
    Div,
    Mod,
    And,
    Or,
    PushBool(bool),
    TuplePack(u8),
    VecNew(u8),
    VecGet,
    VecSet,
    VecLen,
    VecPush,
    FieldAccess(Seq<char>),
    StructConstruct { name: Seq<char>, field_names: Seq<Seq<char>> },
    EnumVariant { variant: Seq<char>, payload: bool },
    SetAgentMeta(Seq<char>),
    CtxAppendLiteral(Seq<char>),
    RegisterSkill(Seq<char>),
    AllocMemorySlot(Seq<char>),
    LoadMemory(Seq<char>),
    StoreMemory(Seq<char>),
    CallOracle(Seq<char>, u8),
    BeginConstraint(Seq<char>),
    EndConstraint,
    ConstraintVerify,
    PersistLoad,
    PersistSave,
    PersistDelete,
    StoreLore(Seq<char>, Seq<char>),
    LoadLore(Seq<char>),
    CtxShare,
}

pub open spec fn op_view(op: OpCode) -> OpV
    decreases op,
{
    match op {
        OpCode::PushStr(s) => OpV::PushStr(s@),
        OpCode::PushInt(n) => OpV::PushInt(n),
        OpCode::PushFloat(s) => OpV::PushFloat(s@),
        OpCode::StoreLocal(s) => OpV::StoreLocal(s@),
        OpCode::LoadLocal(s) => OpV::LoadLocal(s@),
        OpCode::CtxAlloc(n) => OpV::CtxAlloc(n),
        OpCode::CtxFreeStack => OpV::CtxFreeStack,
        OpCode::CtxAppendStack => OpV::CtxAppendStack,
        OpCode::CtxCompress => OpV::CtxCompress,
        OpCode::CtxResize(r, n) => OpV::CtxResize(r, n),
        OpCode::Return => OpV::Return,
        OpCode::Halt => OpV::Halt,
        OpCode::Jump(t) => OpV::Jump(t),
        OpCode::JumpIfFalse(t) => OpV::JumpIfFalse(t),
        OpCode::CallKernel(k) => OpV::CallKernel(k),
        OpCode::Println => OpV::Println,
        OpCode::BranchClassify { var, cases, default } => OpV::BranchClassify { var: var@, cases: arms_view(cases@), default: ops_view(default@) },
        OpCode::InferClassify(labels) => OpV::InferClassify(strings_view(labels@)),
        OpCode::Observe => OpV::Observe,
        OpCode::Reason(s) => OpV::Reason(s@),
        OpCode::Act => OpV::Act,
        OpCode::VerifyStep => OpV::VerifyStep,
        OpCode::BeginInterruptible => OpV::BeginInterruptible,
        OpCode::EndInterruptible => OpV::EndInterruptible,
        OpCode::CmpEq => OpV::CmpEq,
        OpCode::CmpNotEq => OpV::CmpNotEq,
        OpCode::CmpGt => OpV::CmpGt,
        OpCode::CmpLt => OpV::CmpLt,
        OpCode::Add => OpV::Add,
        OpCode::Sub => OpV::Sub,
        OpCode::Mul => OpV::Mul,
        OpCode::Div => OpV::Div,
        OpCode::Mod => OpV::Mod,
        OpCode::And => OpV::And,
        OpCode::Or => OpV::Or,
        OpCode::PushBool(b) => OpV::PushBool(b),
        OpCode::TuplePack(n) => OpV::TuplePack(n),
        OpCode::VecNew(n) => OpV::VecNew(n),
        OpCode::VecGet => OpV::VecGet,
        OpCode::VecSet => OpV::VecSet,
        OpCode::VecLen => OpV::VecLen,
        OpCode::VecPush => OpV::VecPush,
        OpCode::FieldAccess(s) => OpV::FieldAccess(s@),
        OpCode::StructConstruct { name, field_names } => OpV::StructConstruct { name: name@, field_names: strings_view(field_names@) },
        OpCode::EnumVariant { variant, payload } => OpV::EnumVariant { variant: variant@, payload: payload },
        OpCode::SetAgentMeta(s) => OpV::SetAgentMeta(s@),
        OpCode::CtxAppendLiteral(s) => OpV::CtxAppendLiteral(s@),
        OpCode::RegisterSkill(s) => OpV::RegisterSkill(s@),
        OpCode::AllocMemorySlot(s) => OpV::AllocMemorySlot(s@),
        OpCode::LoadMemory(s) => OpV::LoadMemory(s@),
        OpCode::StoreMemory(s) => OpV::StoreMemory(s@),
        OpCode::CallOracle(s, n) => OpV::CallOracle(s@, n),
        OpCode::BeginConstraint(s) => OpV::BeginConstraint(s@),
        OpCode::EndConstraint => OpV::EndConstraint,
        OpCode::ConstraintVerify => OpV::ConstraintVerify,
        OpCode::PersistLoad => OpV::PersistLoad,
        OpCode::PersistSave => OpV::PersistSave,
        OpCode::PersistDelete => OpV::PersistDelete,
        OpCode::StoreLore(a, b) => OpV::StoreLore(a@, b@),
        OpCode::LoadLore(s) => OpV::LoadLore(s@),
        OpCode::CtxShare => OpV::CtxShare,
    }
}

pub open spec fn ops_view(ops: Seq<OpCode>) -> Seq<OpV>
    decreases ops,
{
    if ops.len() == 0 {
        Seq::empty()
    } else {
        seq![op_view(ops[0])] + ops_view(ops.subrange(1, ops.len() as int))
    }
}

/// The cases of a `BranchClassify`: label, confidence threshold (a decimal
/// literal as written), body.
pub open spec fn arms_view(arms: Seq<(String, String, Vec<OpCode>)>) -> Seq<(Seq<char>, Seq<char>, Seq<OpV>)>
    decreases arms,
{
    if arms.len() == 0 {
        Seq::empty()
    } else {
        seq![(arms[0].0@, arms[0].1@, ops_view(arms[0].2@))] + arms_view(arms.subrange(1, arms.len() as int))
    }
}

pub proof fn lemma_ops_view_push(s: Seq<OpCode>, x: OpCode)
    ensures
        ops_view(s.push(x)) == ops_view(s).push(op_view(x)),
    decreases s.len(),
{
    if s.len() == 0 {
        assert(s.push(x).subrange(1, 1) =~= Seq::<OpCode>::empty());
        assert(ops_view(Seq::<OpCode>::empty()) =~= Seq::empty());
        assert(s.push(x)[0] == x);
        assert(ops_view(s.push(x)) =~= seq![op_view(x)]);
    } else {
        assert(s.push(x).subrange(1, s.len() as int + 1) =~= s.subrange(1, s.len() as int).push(x));
        lemma_ops_view_push(s.subrange(1, s.len() as int), x);
        assert(ops_view(s.push(x)) =~= ops_view(s).push(op_view(x)));
    }
}

pub proof fn lemma_ops_view_index(s: Seq<OpCode>)
    ensures
        ops_view(s).len() == s.len(),
        forall|i: int| 0 <= i < s.len() ==> #[trigger] ops_view(s)[i] == op_view(s[i]),
    decreases s.len(),
{
    if s.len() > 0 {
        lemma_ops_view_index(s.subrange(1, s.len() as int));
        assert forall|i: int| 0 <= i < s.len() implies #[trigger] ops_view(s)[i] == op_view(s[i]) by {
            if i > 0 {
                assert(s.subrange(1, s.len() as int)[i - 1] == s[i]);
            }
        }
    }
}

pub proof fn lemma_ops_view_update(s: Seq<OpCode>, i: int, x: OpCode)
    requires
        0 <= i < s.len(),
    ensures
        ops_view(s.update(i, x)) == ops_view(s).update(i, op_view(x)),
{
    lemma_ops_view_index(s);
    lemma_ops_view_index(s.update(i, x));
    assert(ops_view(s.update(i, x)) =~= ops_view(s).update(i, op_view(x)));
}

pub proof fn lemma_arms_view_push(s: Seq<(String, String, Vec<OpCode>)>, x: (String, String, Vec<OpCode>))
    ensures
        arms_view(s.push(x)) == arms_view(s).push((x.0@, x.1@, ops_view(x.2@))),
    decreases s.len(),
{
    if s.len() == 0 {
        assert(s.push(x).subrange(1, 1) =~= Seq::<(String, String, Vec<OpCode>)>::empty());
        assert(arms_view(Seq::<(String, String, Vec<OpCode>)>::empty()) =~= Seq::empty());
        assert(s.push(x)[0] == x);
        assert(arms_view(s.push(x)) =~= seq![(x.0@, x.1@, ops_view(x.2@))]);
    } else {
        assert(s.push(x).subrange(1, s.len() as int + 1) =~= s.subrange(1, s.len() as int).push(x));
        lemma_arms_view_push(s.subrange(1, s.len() as int), x);
        assert(arms_view(s.push(x)) =~= arms_view(s).push((x.0@, x.1@, ops_view(x.2@))));
    }
}

pub proof fn lemma_arms_view_index(s: Seq<(String, String, Vec<OpCode>)>)
    ensures
        arms_view(s).len() == s.len(),
        forall|i: int|
            0 <= i < s.len() ==> #[trigger] arms_view(s)[i] == (s[i].0@, s[i].1@, ops_view(s[i].2@)),
    decreases s.len(),
{
    if s.len() > 0 {
        lemma_arms_view_index(s.subrange(1, s.len() as int));
        assert forall|i: int| 0 <= i < s.len() implies #[trigger] arms_view(s)[i] == (
            s[i].0@,
            s[i].1@,
            ops_view(s[i].2@),
        ) by {
            if i > 0 {
                assert(s.subrange(1, s.len() as int)[i - 1] == s[i]);
            }
        }
    }
}

/// A compiled kernel (also a spell or a skill).
#[derive(Debug)]
pub struct KernelBytecode {
    /// Kernel name (for diagnostics).
    pub name: String,
    /// Parameter names in declaration order, bound from the call-site stack.
    pub params: Vec<String>,
    /// The kernel's instructions.
    pub body: Vec<OpCode>,
    /// How many times the kernel is retried when `VerifyStep` fails.
    pub max_retries: u8,
}

pub struct KernelV {
    pub name: Seq<char>,
    pub params: Seq<Seq<char>>,
    pub body: Seq<OpV>,
    pub max_retries: u8,
}

pub open spec fn kernel_view(k: KernelBytecode) -> KernelV {
    KernelV { name: k.name@, params: strings_view(k.params@), body: ops_view(k.body@), max_retries: k.max_retries }
}

pub open spec fn kernels_view(ks: Seq<KernelBytecode>) -> Seq<KernelV> {
    ks.map_values(|k: KernelBytecode| kernel_view(k))
}

/// `WSPW`, the first bytes of every compiled program.
pub open spec fn bytecode_magic() -> Seq<u8> {
    seq![87u8, 83u8, 80u8, 87u8]
}

/// `LALB`, the first bytes of every library bundle.
pub open spec fn bundle_magic() -> Seq<u8> {
    seq![76u8, 65u8, 76u8, 66u8]
}

/// A compiled program: magic bytes, format version, kernel table and the
/// main instruction stream.
#[derive(Debug)]
pub struct Bytecode {
    pub magic: [u8; 4],
    pub version: u16,
    /// Compiled kernels, indexed by `CallKernel`.
    pub kernels: Vec<KernelBytecode>,
    /// The main instruction stream (the entry point).
    pub instructions: Vec<OpCode>,
}

pub struct BytecodeV {
    pub magic: Seq<u8>,
    pub version: u16,
    pub kernels: Seq<KernelV>,
    pub instructions: Seq<OpV>,
}

pub open spec fn bytecode_view(b: Bytecode) -> BytecodeV {
    BytecodeV {
        magic: b.magic@,
        version: b.version,
        kernels: kernels_view(b.kernels@),
        instructions: ops_view(b.instructions@),
    }
}

impl Bytecode {
    /// A program with the standard magic header and version 1.
    pub fn new(kernels: Vec<KernelBytecode>, instructions: Vec<OpCode>) -> (r: Self)
        ensures
            r.magic@ == bytecode_magic(),
            r.version == 1,
            r.kernels@ == kernels@,
            r.instructions@ == instructions@,
    {
        let magic: [u8; 4] = [87u8, 83u8, 80u8, 87u8];
        assert(magic@ =~= bytecode_magic());
        Bytecode { magic, version: 1, kernels, instructions }
    }
}

/// Kind of an item that a library bundle exports.
#[derive(Debug, Clone, Copy, PartialEq, Eq, Structural)]
pub enum ExportKind {
    /// A callable kernel, spell or skill.
    Kernel,
    /// A static lore string.
    Lore,
    /// An oracle declaration.
    Oracle,
}

/// One entry of a library bundle's export table.
#[derive(Debug)]
pub struct ExportEntry {
    pub name: String,
    pub kind: ExportKind,
    /// Index into the bundle's kernel table for callable exports; `u16::MAX`
    /// otherwise.
    pub kernel_idx: u16,
}

pub struct ExportV {
    pub name: Seq<char>,
    pub kind: ExportKind,
    pub kernel_idx: u16,
}

pub open spec fn exports_view(es: Seq<ExportEntry>) -> Seq<ExportV> {
    es.map_values(|e: ExportEntry| ExportV { name: e.name@, kind: e.kind, kernel_idx: e.kernel_idx })
}

/// A precompiled library: the program and the table of what it exports.
#[derive(Debug)]
pub struct LibraryBundle {
    pub magic: [u8; 4],
    pub version: u16,
    /// Library name.
    pub name: String,
    pub bytecode: Bytecode,
    /// Only `pub` items appear here.
    pub exports: Vec<ExportEntry>,
}

impl LibraryBundle {
    /// A bundle with the standard magic header and version 1.
    pub fn new(name: String, bytecode: Bytecode, exports: Vec<ExportEntry>) -> (r: Self)
        ensures
            r.magic@ == bundle_magic(),
            r.version == 1,
            r.name@ == name@,
            r.bytecode == bytecode,
            r.exports@ == exports@,
    {
        let magic: [u8; 4] = [76u8, 65u8, 76u8, 66u8];
        assert(magic@ =~= bundle_magic());
        LibraryBundle { magic, version: 1, name, bytecode, exports }
    }
}

} // verus!
