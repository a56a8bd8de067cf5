//! The wire format of compiled programs.
//!
//! Integers are little-endian (`usize` as eight bytes), a `bool` is one byte,
//! strings and sequences carry a 64-bit length prefix (strings in UTF-8
//! bytes), an enum variant is its 32-bit index followed by its fields, and
//! the magic header is four raw bytes. A decimal literal travels as the
//! string in which it was written.
//!
//! [`law_decode_encode`] and [`law_encode_decode`] state that the decoder
//! reads back exactly what the encoder writes, and accepts nothing else.
use vstd::prelude::*;
use vstd::utf8::{encode_utf8, decode_utf8, valid_utf8, encode_utf8_decode_utf8, encode_utf8_valid_utf8, decode_utf8_encode_utf8};
use crate::opcodes::{
    OpCode, OpV, op_view, ops_view, arms_view, KernelBytecode, KernelV, Bytecode, BytecodeV, kernel_view, kernels_view,
    bytecode_view, bytecode_magic, LibraryBundle, ExportEntry, ExportKind, ExportV, exports_view,
    lemma_ops_view_push, lemma_ops_view_index, lemma_arms_view_push, lemma_arms_view_index,
};
use crate::ast::strings_view;

verus! {

// ── Encoding ─────────────────────────────────────────────────────────────────

pub open spec fn enc_u8(x: u8) -> Seq<u8> {
    seq![x]
}

pub open spec fn enc_u16(x: u16) -> Seq<u8> {
    seq![(x & 0xffu16) as u8, ((x >> 8u16) & 0xffu16) as u8]
}

pub open spec fn enc_u32(x: u32) -> Seq<u8> {
    seq![
        (x & 0xffu32) as u8,
        ((x >> 8u32) & 0xffu32) as u8,
        ((x >> 16u32) & 0xffu32) as u8,
        ((x >> 24u32) & 0xffu32) as u8,
    ]
}

pub open spec fn enc_u64(x: u64) -> Seq<u8> {
    seq![
        (x & 0xffu64) as u8,
        ((x >> 8u64) & 0xffu64) as u8,
        ((x >> 16u64) & 0xffu64) as u8,
        ((x >> 24u64) & 0xffu64) as u8,
        ((x >> 32u64) & 0xffu64) as u8,
        ((x >> 40u64) & 0xffu64) as u8,
        ((x >> 48u64) & 0xffu64) as u8,
        ((x >> 56u64) & 0xffu64) as u8,
    ]
}

pub open spec fn enc_usize(x: usize) -> Seq<u8> {
    enc_u64(x as u64)
}

pub open spec fn enc_bool(b: bool) -> Seq<u8> {
    seq![if b { 1u8 } else { 0u8 }]
}

/// A string: the length of its UTF-8 encoding, then the encoding.
pub open spec fn enc_str(s: Seq<char>) -> Seq<u8> {
    enc_u64(encode_utf8(s).len() as u64) + encode_utf8(s)
}

pub open spec fn fits_str(s: Seq<char>) -> bool {
    encode_utf8(s).len() <= u64::MAX
}

pub open spec fn strs_body(ss: Seq<Seq<char>>) -> Seq<u8>
    decreases ss.len(),
{
    if ss.len() == 0 {
        Seq::empty()
    } else {
        enc_str(ss[0]) + strs_body(ss.subrange(1, ss.len() as int))
    }
}

pub open spec fn enc_strs(ss: Seq<Seq<char>>) -> Seq<u8> {
    enc_u64(ss.len() as u64) + strs_body(ss)
}

pub open spec fn fits_strs(ss: Seq<Seq<char>>) -> bool {
    ss.len() <= u64::MAX && forall|i: int| 0 <= i < ss.len() ==> fits_str(#[trigger] ss[i])
}

pub open spec fn enc_ops(ops: Seq<OpV>) -> Seq<u8>
    decreases ops, 1int,
{
    enc_u64(ops.len() as u64) + ops_body(ops)
}

pub open spec fn ops_body(ops: Seq<OpV>) -> Seq<u8>
    decreases ops, 0int,
{
    if ops.len() == 0 {
        Seq::empty()
    } else {
        enc_op(ops[0]) + ops_body(ops.subrange(1, ops.len() as int))
    }
}

pub open spec fn fits_ops(ops: Seq<OpV>) -> bool
    decreases ops,
{
    ops.len() <= u64::MAX && (ops.len() > 0 ==> fits_op(ops[0]) && fits_ops(ops.subrange(1, ops.len() as int)))
}

pub open spec fn enc_arms(arms: Seq<(Seq<char>, Seq<char>, Seq<OpV>)>) -> Seq<u8>
    decreases arms, 1int,
{
    enc_u64(arms.len() as u64) + arms_body(arms)
}

pub open spec fn arms_body(arms: Seq<(Seq<char>, Seq<char>, Seq<OpV>)>) -> Seq<u8>
    decreases arms, 0int,
{
    if arms.len() == 0 {
        Seq::empty()
    } else {
        enc_str(arms[0].0) + enc_str(arms[0].1) + enc_ops(arms[0].2) + arms_body(arms.subrange(1, arms.len() as int))
    }
}

pub open spec fn fits_arms(arms: Seq<(Seq<char>, Seq<char>, Seq<OpV>)>) -> bool
    decreases arms,
{
    arms.len() <= u64::MAX && (arms.len() > 0 ==> fits_str(arms[0].0) && fits_str(arms[0].1) && fits_ops(arms[0].2)
        && fits_arms(arms.subrange(1, arms.len() as int)))
}

/// The encoding of one instruction: its variant index, then its fields.
pub open spec fn enc_op(op: OpV) -> Seq<u8>
    decreases op, 0int,
{
    match op {
        OpV::PushStr(s) => enc_u32(0u32) + enc_str(s),
        OpV::PushInt(n) => enc_u32(1u32) + enc_u64(n),
        OpV::PushFloat(s) => enc_u32(2u32) + enc_str(s),
        OpV::StoreLocal(s) => enc_u32(3u32) + enc_str(s),
        OpV::LoadLocal(s) => enc_u32(4u32) + enc_str(s),
        OpV::CtxAlloc(n) => enc_u32(5u32) + enc_u32(n),
        OpV::CtxFreeStack => enc_u32(6u32),
        OpV::CtxAppendStack => enc_u32(7u32),
        OpV::CtxCompress => enc_u32(8u32),
        OpV::CtxResize(r, n) => enc_u32(9u32) + enc_u8(r) + enc_u32(n),
        OpV::Return => enc_u32(10u32),
        OpV::Halt => enc_u32(11u32),
        OpV::Jump(t) => enc_u32(12u32) + enc_usize(t),
        OpV::JumpIfFalse(t) => enc_u32(13u32) + enc_usize(t),
        OpV::CallKernel(k) => enc_u32(14u32) + enc_u16(k),
        OpV::Println => enc_u32(15u32),
        OpV::BranchClassify { var, cases, default } => enc_u32(16u32) + enc_str(var) + enc_arms(cases) + enc_ops(default),
        OpV::InferClassify(labels) => enc_u32(17u32) + enc_strs(labels),
        OpV::Observe => enc_u32(18u32),
        OpV::Reason(s) => enc_u32(19u32) + enc_str(s),
        OpV::Act => enc_u32(20u32),
        OpV::VerifyStep => enc_u32(21u32),
        OpV::BeginInterruptible => enc_u32(22u32),
        OpV::EndInterruptible => enc_u32(23u32),
        OpV::CmpEq => enc_u32(24u32),
        OpV::CmpNotEq => enc_u32(25u32),
        OpV::CmpGt => enc_u32(26u32),
        OpV::CmpLt => enc_u32(27u32),
        OpV::Add => enc_u32(28u32),
        OpV::Sub => enc_u32(29u32),
        OpV::Mul => enc_u32(30u32),
        OpV::Div => enc_u32(31u32),
        OpV::Mod => enc_u32(32u32),
        OpV::And => enc_u32(33u32),
        OpV::Or => enc_u32(34u32),
        OpV::PushBool(b) => enc_u32(35u32) + enc_bool(b),
        OpV::TuplePack(n) => enc_u32(36u32) + enc_u8(n),
        OpV::VecNew(n) => enc_u32(37u32) + enc_u8(n),
        OpV::VecGet => enc_u32(38u32),
        OpV::VecSet => enc_u32(39u32),
        OpV::VecLen => enc_u32(40u32),
        OpV::VecPush => enc_u32(41u32),
        OpV::FieldAccess(s) => enc_u32(42u32) + enc_str(s),
        OpV::StructConstruct { name, field_names } => enc_u32(43u32) + enc_str(name) + enc_strs(field_names),
        OpV::EnumVariant { variant, payload } => enc_u32(44u32) + enc_str(variant) + enc_bool(payload),
        OpV::SetAgentMeta(s) => enc_u32(45u32) + enc_str(s),
        OpV::CtxAppendLiteral(s) => enc_u32(46u32) + enc_str(s),
        OpV::RegisterSkill(s) => enc_u32(47u32) + enc_str(s),
        OpV::AllocMemorySlot(s) => enc_u32(48u32) + enc_str(s),
        OpV::LoadMemory(s) => enc_u32(49u32) + enc_str(s),
        OpV::StoreMemory(s) => enc_u32(50u32) + enc_str(s),
        OpV::CallOracle(s, n) => enc_u32(51u32) + enc_str(s) + enc_u8(n),
        OpV::BeginConstraint(s) => enc_u32(52u32) + enc_str(s),
        OpV::EndConstraint => enc_u32(53u32),
        OpV::ConstraintVerify => enc_u32(54u32),
        OpV::PersistLoad => enc_u32(55u32),
        OpV::PersistSave => enc_u32(56u32),
        OpV::PersistDelete => enc_u32(57u32),
        OpV::StoreLore(a, b) => enc_u32(58u32) + enc_str(a) + enc_str(b),
        OpV::LoadLore(s) => enc_u32(59u32) + enc_str(s),
        OpV::CtxShare => enc_u32(60u32),
    }
}

/// Every length inside the instruction fits the 64-bit length prefix.
pub open spec fn fits_op(op: OpV) -> bool
    decreases op,
{
    match op {
        OpV::PushStr(s) => fits_str(s),
        OpV::PushInt(n) => true,
        OpV::PushFloat(s) => fits_str(s),
        OpV::StoreLocal(s) => fits_str(s),
        OpV::LoadLocal(s) => fits_str(s),
        OpV::CtxAlloc(n) => true,
        OpV::CtxFreeStack => true,
        OpV::CtxAppendStack => true,
        OpV::CtxCompress => true,
        OpV::CtxResize(r, n) => true,
        OpV::Return => true,
        OpV::Halt => true,
        OpV::Jump(t) => true,
        OpV::JumpIfFalse(t) => true,
        OpV::CallKernel(k) => true,
        OpV::Println => true,
        OpV::BranchClassify { var, cases, default } => fits_str(var) && fits_arms(cases) && fits_ops(default),
        OpV::InferClassify(labels) => fits_strs(labels),
        OpV::Observe => true,
        OpV::Reason(s) => fits_str(s),
        OpV::Act => true,
        OpV::VerifyStep => true,
        OpV::BeginInterruptible => true,
        OpV::EndInterruptible => true,
        OpV::CmpEq => true,
        OpV::CmpNotEq => true,
        OpV::CmpGt => true,
        OpV::CmpLt => true,
        OpV::Add => true,
        OpV::Sub => true,
        OpV::Mul => true,
        OpV::Div => true,
        OpV::Mod => true,
        OpV::And => true,
        OpV::Or => true,
        OpV::PushBool(b) => true,
        OpV::TuplePack(n) => true,
        OpV::VecNew(n) => true,
        OpV::VecGet => true,
        OpV::VecSet => true,
        OpV::VecLen => true,
        OpV::VecPush => true,
        OpV::FieldAccess(s) => fits_str(s),
        OpV::StructConstruct { name, field_names } => fits_str(name) && fits_strs(field_names),
        OpV::EnumVariant { variant, payload } => fits_str(variant),
        OpV::SetAgentMeta(s) => fits_str(s),
        OpV::CtxAppendLiteral(s) => fits_str(s),
        OpV::RegisterSkill(s) => fits_str(s),
        OpV::AllocMemorySlot(s) => fits_str(s),
        OpV::LoadMemory(s) => fits_str(s),
        OpV::StoreMemory(s) => fits_str(s),
        OpV::CallOracle(s, n) => fits_str(s),
        OpV::BeginConstraint(s) => fits_str(s),
        OpV::EndConstraint => true,
        OpV::ConstraintVerify => true,
        OpV::PersistLoad => true,
        OpV::PersistSave => true,
        OpV::PersistDelete => true,
        OpV::StoreLore(a, b) => fits_str(a) && fits_str(b),
        OpV::LoadLore(s) => fits_str(s),
        OpV::CtxShare => true,
    }
}

/// Decodes the fields of the instruction with variant index `tag` at `p`.
pub open spec fn dec_op_fields(b: Seq<u8>, tag: u32, p: int) -> Option<(OpV, int)>
    decreases b.len() - p, 0int,
{
    if tag == 0u32 {
        match dec_str(b, p) {
            Some((x_s, q0)) => if q0 <= p || q0 > b.len() { None } else {
                Some((OpV::PushStr(x_s), q0))
            },
            None => None,
        }
    } else if tag == 1u32 {
        match dec_u64(b, p) {
            Some((x_n, q0)) => if q0 <= p || q0 > b.len() { None } else {
                Some((OpV::PushInt(x_n), q0))
            },
            None => None,
        }
    } else if tag == 2u32 {
        match dec_str(b, p) {
            Some((x_s, q0)) => if q0 <= p || q0 > b.len() { None } else {
                Some((OpV::PushFloat(x_s), q0))
            },
            None => None,
        }
    } else if tag == 3u32 {
        match dec_str(b, p) {
            Some((x_s, q0)) => if q0 <= p || q0 > b.len() { None } else {
                Some((OpV::StoreLocal(x_s), q0))
            },
            None => None,
        }
    } else if tag == 4u32 {
        match dec_str(b, p) {
            Some((x_s, q0)) => if q0 <= p || q0 > b.len() { None } else {
                Some((OpV::LoadLocal(x_s), q0))
            },
            None => None,
        }
    } else if tag == 5u32 {
        match dec_u32(b, p) {
            Some((x_n, q0)) => if q0 <= p || q0 > b.len() { None } else {
                Some((OpV::CtxAlloc(x_n), q0))
            },
            None => None,
        }
    } else if tag == 6u32 {
        Some((OpV::CtxFreeStack, p))
    } else if tag == 7u32 {
        Some((OpV::CtxAppendStack, p))
    } else if tag == 8u32 {
        Some((OpV::CtxCompress, p))
    } else if tag == 9u32 {
        match dec_u8(b, p) {
            Some((x_r, q0)) => if q0 <= p || q0 > b.len() { None } else {
                match dec_u32(b, q0) {
                    Some((x_n, q1)) => if q1 <= q0 || q1 > b.len() { None } else {
                        Some((OpV::CtxResize(x_r, x_n), q1))
                    },
                    None => None,
                }
            },
            None => None,
        }
    } else if tag == 10u32 {
        Some((OpV::Return, p))
    } else if tag == 11u32 {
        Some((OpV::Halt, p))
    } else if tag == 12u32 {
        match dec_usize(b, p) {
            Some((x_t, q0)) => if q0 <= p || q0 > b.len() { None } else {
                Some((OpV::Jump(x_t), q0))
            },
            None => None,
        }
    } else if tag == 13u32 {
        match dec_usize(b, p) {
            Some((x_t, q0)) => if q0 <= p || q0 > b.len() { None } else {
                Some((OpV::JumpIfFalse(x_t), q0))
            },
            None => None,
        }
    } else if tag == 14u32 {
        match dec_u16(b, p) {
            Some((x_k, q0)) => if q0 <= p || q0 > b.len() { None } else {
                Some((OpV::CallKernel(x_k), q0))
            },
            None => None,
        }
    } else if tag == 15u32 {
        Some((OpV::Println, p))
    } else if tag == 16u32 {
        match dec_str(b, p) {
            Some((x_var, q0)) => if q0 <= p || q0 > b.len() { None } else {
                if q0 < 0 || q0 > b.len() { None } else {
                    match dec_arms(b, q0) {
                        Some((x_cases, q1)) => if q1 <= q0 || q1 > b.len() { None } else {
                            if q1 < 0 || q1 > b.len() { None } else {
                                match dec_ops(b, q1) {
                                    Some((x_default, q2)) => if q2 <= q1 || q2 > b.len() { None } else {
                                        Some((OpV::BranchClassify { var: x_var, cases: x_cases, default: x_default }, q2))
                                    },
                                    None => None,
                                }
                            }
                        },
                        None => None,
                    }
                }
            },
            None => None,
        }
    } else if tag == 17u32 {
        match dec_strs(b, p) {
            Some((x_labels, q0)) => if q0 <= p || q0 > b.len() { None } else {
                Some((OpV::InferClassify(x_labels), q0))
            },
            None => None,
        }
    } else if tag == 18u32 {
        Some((OpV::Observe, p))
    } else if tag == 19u32 {
        match dec_str(b, p) {
            Some((x_s, q0)) => if q0 <= p || q0 > b.len() { None } else {
                Some((OpV::Reason(x_s), q0))
            },
            None => None,
        }
    } else if tag == 20u32 {
        Some((OpV::Act, p))
    } else if tag == 21u32 {
        Some((OpV::VerifyStep, p))
    } else if tag == 22u32 {
        Some((OpV::BeginInterruptible, p))
    } else if tag == 23u32 {
        Some((OpV::EndInterruptible, p))
    } else if tag == 24u32 {
        Some((OpV::CmpEq, p))
    } else if tag == 25u32 {
        Some((OpV::CmpNotEq, p))
    } else if tag == 26u32 {
        Some((OpV::CmpGt, p))
    } else if tag == 27u32 {
        Some((OpV::CmpLt, p))
    } else if tag == 28u32 {
        Some((OpV::Add, p))
    } else if tag == 29u32 {
        Some((OpV::Sub, p))
    } else if tag == 30u32 {
        Some((OpV::Mul, p))
    } else if tag == 31u32 {
        Some((OpV::Div, p))
    } else if tag == 32u32 {
        Some((OpV::Mod, p))
    } else if tag == 33u32 {
        Some((OpV::And, p))
    } else if tag == 34u32 {
        Some((OpV::Or, p))
    } else if tag == 35u32 {
        match dec_bool(b, p) {
            Some((x_b, q0)) => if q0 <= p || q0 > b.len() { None } else {
                Some((OpV::PushBool(x_b), q0))
            },
            None => None,
        }
    } else if tag == 36u32 {
        match dec_u8(b, p) {
            Some((x_n, q0)) => if q0 <= p || q0 > b.len() { None } else {
                Some((OpV::TuplePack(x_n), q0))
            },
            None => None,
        }
    } else if tag == 37u32 {
        match dec_u8(b, p) {
            Some((x_n, q0)) => if q0 <= p || q0 > b.len() { None } else {
                Some((OpV::VecNew(x_n), q0))
            },
            None => None,
        }
    } else if tag == 38u32 {
        Some((OpV::VecGet, p))
    } else if tag == 39u32 {
        Some((OpV::VecSet, p))
    } else if tag == 40u32 {
        Some((OpV::VecLen, p))
    } else if tag == 41u32 {
        Some((OpV::VecPush, p))
    } else if tag == 42u32 {
        match dec_str(b, p) {
            Some((x_s, q0)) => if q0 <= p || q0 > b.len() { None } else {
                Some((OpV::FieldAccess(x_s), q0))
            },
            None => None,
        }
    } else if tag == 43u32 {
        match dec_str(b, p) {
            Some((x_name, q0)) => if q0 <= p || q0 > b.len() { None } else {
                match dec_strs(b, q0) {
                    Some((x_field_names, q1)) => if q1 <= q0 || q1 > b.len() { None } else {
                        Some((OpV::StructConstruct { name: x_name, field_names: x_field_names }, q1))
                    },
                    None => None,
                }
            },
            None => None,
        }
    } else if tag == 44u32 {
        match dec_str(b, p) {
            Some((x_variant, q0)) => if q0 <= p || q0 > b.len() { None } else {
                match dec_bool(b, q0) {
                    Some((x_payload, q1)) => if q1 <= q0 || q1 > b.len() { None } else {
                        Some((OpV::EnumVariant { variant: x_variant, payload: x_payload }, q1))
                    },
                    None => None,
                }
            },
            None => None,
        }
    } else if tag == 45u32 {
        match dec_str(b, p) {
            Some((x_s, q0)) => if q0 <= p || q0 > b.len() { None } else {
                Some((OpV::SetAgentMeta(x_s), q0))
            },
            None => None,
        }
    } else if tag == 46u32 {
        match dec_str(b, p) {
            Some((x_s, q0)) => if q0 <= p || q0 > b.len() { None } else {
                Some((OpV::CtxAppendLiteral(x_s), q0))
            },
            None => None,
        }
    } else if tag == 47u32 {
        match dec_str(b, p) {
            Some((x_s, q0)) => if q0 <= p || q0 > b.len() { None } else {
                Some((OpV::RegisterSkill(x_s), q0))
            },
            None => None,
        }
    } else if tag == 48u32 {
        match dec_str(b, p) {
            Some((x_s, q0)) => if q0 <= p || q0 > b.len() { None } else {
                Some((OpV::AllocMemorySlot(x_s), q0))
            },
            None => None,
        }
    } else if tag == 49u32 {
        match dec_str(b, p) {
            Some((x_s, q0)) => if q0 <= p || q0 > b.len() { None } else {
                Some((OpV::LoadMemory(x_s), q0))
            },
            None => None,
        }
    } else if tag == 50u32 {
        match dec_str(b, p) {
            Some((x_s, q0)) => if q0 <= p || q0 > b.len() { None } else {
                Some((OpV::StoreMemory(x_s), q0))
            },
            None => None,
        }
    } else if tag == 51u32 {
        match dec_str(b, p) {
            Some((x_s, q0)) => if q0 <= p || q0 > b.len() { None } else {
                match dec_u8(b, q0) {
                    Some((x_n, q1)) => if q1 <= q0 || q1 > b.len() { None } else {
                        Some((OpV::CallOracle(x_s, x_n), q1))
                    },
                    None => None,
                }
            },
            None => None,
        }
    } else if tag == 52u32 {
        match dec_str(b, p) {
            Some((x_s, q0)) => if q0 <= p || q0 > b.len() { None } else {
                Some((OpV::BeginConstraint(x_s), q0))
            },
            None => None,
        }
    } else if tag == 53u32 {
        Some((OpV::EndConstraint, p))
    } else if tag == 54u32 {
        Some((OpV::ConstraintVerify, p))
    } else if tag == 55u32 {
        Some((OpV::PersistLoad, p))
    } else if tag == 56u32 {
        Some((OpV::PersistSave, p))
    } else if tag == 57u32 {
        Some((OpV::PersistDelete, p))
    } else if tag == 58u32 {
        match dec_str(b, p) {
            Some((x_a, q0)) => if q0 <= p || q0 > b.len() { None } else {
                match dec_str(b, q0) {
                    Some((x_b, q1)) => if q1 <= q0 || q1 > b.len() { None } else {
                        Some((OpV::StoreLore(x_a, x_b), q1))
                    },
                    None => None,
                }
            },
            None => None,
        }
    } else if tag == 59u32 {
        match dec_str(b, p) {
            Some((x_s, q0)) => if q0 <= p || q0 > b.len() { None } else {
                Some((OpV::LoadLore(x_s), q0))
            },
            None => None,
        }
    } else if tag == 60u32 {
        Some((OpV::CtxShare, p))
    } else {
        None
    }
}

// ── Decoding ─────────────────────────────────────────────────────────────────

pub open spec fn u16_of(a: u8, b: u8) -> u16 {
    (a as u16) | ((b as u16) << 8u16)
}

pub open spec fn u32_of(a: u8, b: u8, c: u8, d: u8) -> u32 {
    (a as u32) | ((b as u32) << 8u32) | ((c as u32) << 16u32) | ((d as u32) << 24u32)
}

pub open spec fn u64_of(b: Seq<u8>, p: int) -> u64 {
    (b[p] as u64) | ((b[p + 1] as u64) << 8u64) | ((b[p + 2] as u64) << 16u64) | ((b[p + 3] as u64) << 24u64) | ((b[p
        + 4] as u64) << 32u64) | ((b[p + 5] as u64) << 40u64) | ((b[p + 6] as u64) << 48u64) | ((b[p + 7] as u64)
        << 56u64)
}

pub open spec fn dec_u8(b: Seq<u8>, p: int) -> Option<(u8, int)> {
    if 0 <= p && p + 1 <= b.len() {
        Some((b[p], p + 1))
    } else {
        None
    }
}

pub open spec fn dec_u16(b: Seq<u8>, p: int) -> Option<(u16, int)> {
    if 0 <= p && p + 2 <= b.len() {
        Some((u16_of(b[p], b[p + 1]), p + 2))
    } else {
        None
    }
}

pub open spec fn dec_u32(b: Seq<u8>, p: int) -> Option<(u32, int)> {
    if 0 <= p && p + 4 <= b.len() {
        Some((u32_of(b[p], b[p + 1], b[p + 2], b[p + 3]), p + 4))
    } else {
        None
    }
}

pub open spec fn dec_u64(b: Seq<u8>, p: int) -> Option<(u64, int)> {
    if 0 <= p && p + 8 <= b.len() {
        Some((u64_of(b, p), p + 8))
    } else {
        None
    }
}

pub open spec fn dec_usize(b: Seq<u8>, p: int) -> Option<(usize, int)> {
    match dec_u64(b, p) {
        Some((v, q)) => if v <= usize::MAX {
            Some((v as usize, q))
        } else {
            None
        },
        None => None,
    }
}

pub open spec fn dec_bool(b: Seq<u8>, p: int) -> Option<(bool, int)> {
    match dec_u8(b, p) {
        Some((v, q)) => if v == 0 {
            Some((false, q))
        } else if v == 1 {
            Some((true, q))
        } else {
            None
        },
        None => None,
    }
}

pub open spec fn dec_str(b: Seq<u8>, p: int) -> Option<(Seq<char>, int)> {
    match dec_u64(b, p) {
        Some((n, q)) => if q + n <= b.len() && valid_utf8(b.subrange(q, q + n)) {
            Some((decode_utf8(b.subrange(q, q + n)), q + n))
        } else {
            None
        },
        None => None,
    }
}

pub open spec fn dec_strs_n(b: Seq<u8>, p: int, n: nat, acc: Seq<Seq<char>>) -> Option<(Seq<Seq<char>>, int)>
    decreases n,
{
    if n == 0 {
        Some((acc, p))
    } else {
        match dec_str(b, p) {
            Some((s, q)) => dec_strs_n(b, q, (n - 1) as nat, acc.push(s)),
            None => None,
        }
    }
}

pub open spec fn dec_strs(b: Seq<u8>, p: int) -> Option<(Seq<Seq<char>>, int)> {
    match dec_u64(b, p) {
        Some((n, q)) => dec_strs_n(b, q, n as nat, Seq::empty()),
        None => None,
    }
}

pub open spec fn dec_op(b: Seq<u8>, p: int) -> Option<(OpV, int)>
    decreases b.len() - p, 1int,
{
    match dec_u32(b, p) {
        Some((tag, q)) => dec_op_fields(b, tag, q),
        None => None,
    }
}

pub open spec fn dec_ops_n(b: Seq<u8>, p: int, n: nat, acc: Seq<OpV>) -> Option<(Seq<OpV>, int)>
    decreases b.len() - p, n + 2,
{
    if n == 0 {
        Some((acc, p))
    } else if p < 0 || p > b.len() {
        None
    } else {
        match dec_op(b, p) {
            Some((o, q)) => if q <= p || q > b.len() {
                None
            } else {
                dec_ops_n(b, q, (n - 1) as nat, acc.push(o))
            },
            None => None,
        }
    }
}

pub open spec fn dec_ops(b: Seq<u8>, p: int) -> Option<(Seq<OpV>, int)>
    decreases b.len() - p, 0int,
{
    match dec_u64(b, p) {
        Some((n, q)) => dec_ops_n(b, q, n as nat, Seq::empty()),
        None => None,
    }
}

pub open spec fn dec_arms_n(b: Seq<u8>, p: int, n: nat, acc: Seq<(Seq<char>, Seq<char>, Seq<OpV>)>) -> Option<
    (Seq<(Seq<char>, Seq<char>, Seq<OpV>)>, int),
>
    decreases b.len() - p, n + 2,
{
    if n == 0 {
        Some((acc, p))
    } else if p < 0 || p > b.len() {
        None
    } else {
        match dec_str(b, p) {
            Some((l, q0)) => match dec_str(b, q0) {
                Some((c, q1)) => if q1 <= p || q1 > b.len() {
                    None
                } else {
                    match dec_ops(b, q1) {
                        Some((body, q2)) => if q2 <= p || q2 > b.len() {
                            None
                        } else {
                            dec_arms_n(b, q2, (n - 1) as nat, acc.push((l, c, body)))
                        },
                        None => None,
                    }
                },
                None => None,
            },
            None => None,
        }
    }
}

pub open spec fn dec_arms(b: Seq<u8>, p: int) -> Option<(Seq<(Seq<char>, Seq<char>, Seq<OpV>)>, int)>
    decreases b.len() - p, 0int,
{
    match dec_u64(b, p) {
        Some((n, q)) => dec_arms_n(b, q, n as nat, Seq::empty()),
        None => None,
    }
}


// ── Kernels and programs ─────────────────────────────────────────────────────

pub open spec fn enc_kernel(k: KernelV) -> Seq<u8> {
    enc_str(k.name) + enc_strs(k.params) + enc_ops(k.body) + enc_u8(k.max_retries)
}

pub open spec fn fits_kernel(k: KernelV) -> bool {
    fits_str(k.name) && fits_strs(k.params) && fits_ops(k.body)
}

pub open spec fn kernels_body(ks: Seq<KernelV>) -> Seq<u8>
    decreases ks.len(),
{
    if ks.len() == 0 {
        Seq::empty()
    } else {
        enc_kernel(ks[0]) + kernels_body(ks.subrange(1, ks.len() as int))
    }
}

/// A program: the four magic bytes, the version, the kernel table and the
/// main instructions.
pub open spec fn enc_bytecode(b: BytecodeV) -> Seq<u8> {
    b.magic + enc_u16(b.version) + enc_u64(b.kernels.len() as u64) + kernels_body(b.kernels) + enc_ops(b.instructions)
}

/// Every length in the program fits its 64-bit prefix.
pub open spec fn fits_bytecode(b: BytecodeV) -> bool {
    &&& b.magic.len() == 4
    &&& b.kernels.len() <= u64::MAX
    &&& forall|i: int| 0 <= i < b.kernels.len() ==> fits_kernel(#[trigger] b.kernels[i])
    &&& fits_ops(b.instructions)
}

pub open spec fn dec_kernel(b: Seq<u8>, p: int) -> Option<(KernelV, int)> {
    match dec_str(b, p) {
        Some((name, q0)) => match dec_strs(b, q0) {
            Some((params, q1)) => match dec_ops(b, q1) {
                Some((body, q2)) => match dec_u8(b, q2) {
                    Some((r, q3)) => Some((KernelV { name, params, body, max_retries: r }, q3)),
                    None => None,
                },
                None => None,
            },
            None => None,
        },
        None => None,
    }
}

pub open spec fn dec_kernels_n(b: Seq<u8>, p: int, n: nat, acc: Seq<KernelV>) -> Option<(Seq<KernelV>, int)>
    decreases n,
{
    if n == 0 {
        Some((acc, p))
    } else {
        match dec_kernel(b, p) {
            Some((k, q)) => dec_kernels_n(b, q, (n - 1) as nat, acc.push(k)),
            None => None,
        }
    }
}

/// Decodes a program from the start of `b` (bytes after it are ignored).
pub open spec fn dec_bytecode(b: Seq<u8>) -> Option<(BytecodeV, int)> {
    if b.len() < 4 {
        None
    } else {
        match dec_u16(b, 4) {
            Some((version, q0)) => match dec_u64(b, q0) {
                Some((n, q1)) => match dec_kernels_n(b, q1, n as nat, Seq::empty()) {
                    Some((kernels, q2)) => match dec_ops(b, q2) {
                        Some((instructions, q3)) => Some(
                            (BytecodeV { magic: b.subrange(0, 4), version, kernels, instructions }, q3),
                        ),
                        None => None,
                    },
                    None => None,
                },
                None => None,
            },
            None => None,
        }
    }
}

pub open spec fn export_kind_tag(k: ExportKind) -> u32 {
    match k {
        ExportKind::Kernel => 0,
        ExportKind::Lore => 1,
        ExportKind::Oracle => 2,
    }
}

pub open spec fn exports_body(es: Seq<ExportV>) -> Seq<u8>
    decreases es.len(),
{
    if es.len() == 0 {
        Seq::empty()
    } else {
        enc_str(es[0].name) + enc_u32(export_kind_tag(es[0].kind)) + enc_u16(es[0].kernel_idx) + exports_body(
            es.subrange(1, es.len() as int),
        )
    }
}

/// A library bundle: magic, version, name, the program, the export table.
pub open spec fn enc_bundle(magic: Seq<u8>, version: u16, name: Seq<char>, bc: BytecodeV, es: Seq<ExportV>) -> Seq<u8> {
    magic + enc_u16(version) + enc_str(name) + enc_bytecode(bc) + enc_u64(es.len() as u64) + exports_body(es)
}


// ── Exec: encoding ───────────────────────────────────────────────────────────

fn put_u8(out: &mut Vec<u8>, x: u8)
    ensures
        final(out)@ == old(out)@ + enc_u8(x),
{
    out.push(x);
    assert(out@ =~= old(out)@ + enc_u8(x));
}

fn put_u16(out: &mut Vec<u8>, x: u16)
    ensures
        final(out)@ == old(out)@ + enc_u16(x),
{
    out.push((x & 0xff) as u8);
    out.push(((x >> 8u16) & 0xff) as u8);
    assert(out@ =~= old(out)@ + enc_u16(x));
}

fn put_u32(out: &mut Vec<u8>, x: u32)
    ensures
        final(out)@ == old(out)@ + enc_u32(x),
{
    out.push((x & 0xff) as u8);
    out.push(((x >> 8u32) & 0xff) as u8);
    out.push(((x >> 16u32) & 0xff) as u8);
    out.push(((x >> 24u32) & 0xff) as u8);
    assert(out@ =~= old(out)@ + enc_u32(x));
}

fn put_u64(out: &mut Vec<u8>, x: u64)
    ensures
        final(out)@ == old(out)@ + enc_u64(x),
{
    out.push((x & 0xff) as u8);
    out.push(((x >> 8u64) & 0xff) as u8);
    out.push(((x >> 16u64) & 0xff) as u8);
    out.push(((x >> 24u64) & 0xff) as u8);
    out.push(((x >> 32u64) & 0xff) as u8);
    out.push(((x >> 40u64) & 0xff) as u8);
    out.push(((x >> 48u64) & 0xff) as u8);
    out.push(((x >> 56u64) & 0xff) as u8);
    assert(out@ =~= old(out)@ + enc_u64(x));
}

fn put_usize(out: &mut Vec<u8>, x: usize)
    ensures
        final(out)@ == old(out)@ + enc_usize(x),
{
    put_u64(out, x as u64);
}

fn put_bool(out: &mut Vec<u8>, x: bool)
    ensures
        final(out)@ == old(out)@ + enc_bool(x),
{
    out.push(if x { 1u8 } else { 0u8 });
    assert(out@ =~= old(out)@ + enc_bool(x));
}

fn put_bytes(out: &mut Vec<u8>, bytes: &[u8])
    ensures
        final(out)@ == old(out)@ + bytes@,
{
    let mut i: usize = 0;
    while i < bytes.len()
        invariant
            i <= bytes.len(),
            out@ == old(out)@ + bytes@.subrange(0, i as int),
        decreases bytes.len() - i,
    {
        out.push(bytes[i]);
        assert(bytes@.subrange(0, i + 1) =~= bytes@.subrange(0, i as int).push(bytes@[i as int]));
        i = i + 1;
    }
    assert(bytes@.subrange(0, bytes.len() as int) =~= bytes@);
}

fn put_str(out: &mut Vec<u8>, s: &String)
    ensures
        final(out)@ == old(out)@ + enc_str(s@),
{
    let bytes = s.as_str().as_bytes();
    put_u64(out, bytes.len() as u64);
    put_bytes(out, bytes);
    assert(out@ =~= old(out)@ + enc_str(s@));
}

fn put_strs(out: &mut Vec<u8>, ss: &Vec<String>)
    ensures
        final(out)@ == old(out)@ + enc_strs(strings_view(ss@)),
{
    let ghost sv = strings_view(ss@);
    put_u64(out, ss.len() as u64);
    let ghost mid = out@;
    let mut i: usize = 0;
    assert(sv.subrange(0, sv.len() as int) =~= sv);
    while i < ss.len()
        invariant
            i <= ss.len(),
            sv == strings_view(ss@),
            mid + strs_body(sv) == out@ + strs_body(sv.subrange(i as int, sv.len() as int)),
        decreases ss.len() - i,
    {
        let ghost tail = sv.subrange(i as int, sv.len() as int);
        assert(tail.subrange(1, tail.len() as int) =~= sv.subrange(i + 1, sv.len() as int));
        assert(tail[0] == ss@[i as int]@);
        let ghost before = out@;
        put_str(out, &ss[i]);
        assert(before + strs_body(tail) =~= out@ + strs_body(sv.subrange(i + 1, sv.len() as int)));
        i = i + 1;
    }
    assert(out@ + strs_body(sv.subrange(sv.len() as int, sv.len() as int)) =~= out@);
    assert(out@ =~= old(out)@ + enc_strs(sv));
}

fn put_ops(out: &mut Vec<u8>, ops: &Vec<OpCode>)
    ensures
        final(out)@ == old(out)@ + enc_ops(ops_view(ops@)),
    decreases ops, 1int,
{
    let ghost ov = ops_view(ops@);
    proof {
        lemma_ops_view_index(ops@);
    }
    put_u64(out, ops.len() as u64);
    let ghost mid = out@;
    let mut i: usize = 0;
    assert(ov.subrange(0, ov.len() as int) =~= ov);
    while i < ops.len()
        invariant
            i <= ops.len(),
            ov == ops_view(ops@),
            ov.len() == ops.len(),
            forall|k: int| 0 <= k < ops.len() ==> #[trigger] ov[k] == op_view(ops@[k]),
            mid + ops_body(ov) == out@ + ops_body(ov.subrange(i as int, ov.len() as int)),
        decreases ops.len() - i,
    {
        let ghost tail = ov.subrange(i as int, ov.len() as int);
        assert(tail.subrange(1, tail.len() as int) =~= ov.subrange(i + 1, ov.len() as int));
        assert(tail[0] == ov[i as int]);
        proof {
            assert(decreases_to!(ops => ops@));
            assert(decreases_to!(ops@ => ops@[i as int]));
        }
        let ghost before = out@;
        put_op(out, &ops[i]);
        assert(before + ops_body(tail) =~= out@ + ops_body(ov.subrange(i + 1, ov.len() as int)));
        i = i + 1;
    }
    assert(out@ + ops_body(ov.subrange(ov.len() as int, ov.len() as int)) =~= out@);
    assert(out@ =~= old(out)@ + enc_ops(ov));
}

fn put_arms(out: &mut Vec<u8>, arms: &Vec<(String, String, Vec<OpCode>)>)
    ensures
        final(out)@ == old(out)@ + enc_arms(arms_view(arms@)),
    decreases arms, 1int,
{
    let ghost av = arms_view(arms@);
    proof {
        lemma_arms_view_index(arms@);
    }
    put_u64(out, arms.len() as u64);
    let ghost mid = out@;
    let mut i: usize = 0;
    assert(av.subrange(0, av.len() as int) =~= av);
    while i < arms.len()
        invariant
            i <= arms.len(),
            av == arms_view(arms@),
            av.len() == arms.len(),
            forall|k: int| 0 <= k < arms.len() ==> #[trigger] av[k] == (arms@[k].0@, arms@[k].1@, ops_view(arms@[k].2@)),
            mid + arms_body(av) == out@ + arms_body(av.subrange(i as int, av.len() as int)),
        decreases arms.len() - i,
    {
        let ghost tail = av.subrange(i as int, av.len() as int);
        assert(tail.subrange(1, tail.len() as int) =~= av.subrange(i + 1, av.len() as int));
        assert(tail[0] == av[i as int]);
        proof {
            assert(decreases_to!(arms => arms@));
            assert(decreases_to!(arms@ => arms@[i as int]));
            assert(decreases_to!(arms@[i as int] => arms@[i as int].2));
        }
        let ghost before = out@;
        put_str(out, &arms[i].0);
        put_str(out, &arms[i].1);
        put_ops(out, &arms[i].2);
        assert(before + arms_body(tail) =~= out@ + arms_body(av.subrange(i + 1, av.len() as int)));
        i = i + 1;
    }
    assert(out@ + arms_body(av.subrange(av.len() as int, av.len() as int)) =~= out@);
    assert(out@ =~= old(out)@ + enc_arms(av));
}

fn put_kernel(out: &mut Vec<u8>, k: &KernelBytecode)
    ensures
        final(out)@ == old(out)@ + enc_kernel(kernel_view(*k)),
{
    put_str(out, &k.name);
    put_strs(out, &k.params);
    put_ops(out, &k.body);
    put_u8(out, k.max_retries);
    assert(out@ =~= old(out)@ + enc_kernel(kernel_view(*k)));
}

/// The bytes of a compiled program.
pub fn encode_bytecode(bc: &Bytecode) -> (r: Vec<u8>)
    ensures
        r@ == enc_bytecode(bytecode_view(*bc)),
{
    let ghost kv = kernels_view(bc.kernels@);
    let mut out: Vec<u8> = Vec::new();
    out.push(bc.magic[0]);
    out.push(bc.magic[1]);
    out.push(bc.magic[2]);
    out.push(bc.magic[3]);
    assert(out@ =~= bc.magic@);
    put_u16(&mut out, bc.version);
    put_u64(&mut out, bc.kernels.len() as u64);
    let ghost mid = out@;
    let mut i: usize = 0;
    assert(kv.subrange(0, kv.len() as int) =~= kv);
    while i < bc.kernels.len()
        invariant
            i <= bc.kernels.len(),
            kv == kernels_view(bc.kernels@),
            mid + kernels_body(kv) == out@ + kernels_body(kv.subrange(i as int, kv.len() as int)),
        decreases bc.kernels.len() - i,
    {
        let ghost tail = kv.subrange(i as int, kv.len() as int);
        assert(tail.subrange(1, tail.len() as int) =~= kv.subrange(i + 1, kv.len() as int));
        assert(tail[0] == kernel_view(bc.kernels@[i as int]));
        let ghost before = out@;
        put_kernel(&mut out, &bc.kernels[i]);
        assert(before + kernels_body(tail) =~= out@ + kernels_body(kv.subrange(i + 1, kv.len() as int)));
        i = i + 1;
    }
    assert(out@ + kernels_body(kv.subrange(kv.len() as int, kv.len() as int)) =~= out@);
    put_ops(&mut out, &bc.instructions);
    assert(out@ =~= enc_bytecode(bytecode_view(*bc)));
    out
}

fn export_tag(k: ExportKind) -> (r: u32)
    ensures
        r == export_kind_tag(k),
{
    match k {
        ExportKind::Kernel => 0,
        ExportKind::Lore => 1,
        ExportKind::Oracle => 2,
    }
}

/// The bytes of a library bundle.
pub fn encode_bundle(lb: &LibraryBundle) -> (r: Vec<u8>)
    ensures
        r@ == enc_bundle(lb.magic@, lb.version, lb.name@, bytecode_view(lb.bytecode), exports_view(lb.exports@)),
{
    let ghost ev = exports_view(lb.exports@);
    let mut out: Vec<u8> = Vec::new();
    out.push(lb.magic[0]);
    out.push(lb.magic[1]);
    out.push(lb.magic[2]);
    out.push(lb.magic[3]);
    assert(out@ =~= lb.magic@);
    put_u16(&mut out, lb.version);
    put_str(&mut out, &lb.name);
    let body = encode_bytecode(&lb.bytecode);
    put_bytes(&mut out, body.as_slice());
    put_u64(&mut out, lb.exports.len() as u64);
    let ghost mid = out@;
    let mut i: usize = 0;
    assert(ev.subrange(0, ev.len() as int) =~= ev);
    while i < lb.exports.len()
        invariant
            i <= lb.exports.len(),
            ev == exports_view(lb.exports@),
            mid + exports_body(ev) == out@ + exports_body(ev.subrange(i as int, ev.len() as int)),
        decreases lb.exports.len() - i,
    {
        let ghost tail = ev.subrange(i as int, ev.len() as int);
        assert(tail.subrange(1, tail.len() as int) =~= ev.subrange(i + 1, ev.len() as int));
        let ghost before = out@;
        put_str(&mut out, &lb.exports[i].name);
        put_u32(&mut out, export_tag(lb.exports[i].kind));
        put_u16(&mut out, lb.exports[i].kernel_idx);
        assert(before + exports_body(tail) =~= out@ + exports_body(ev.subrange(i + 1, ev.len() as int)));
        i = i + 1;
    }
    assert(out@ + exports_body(ev.subrange(ev.len() as int, ev.len() as int)) =~= out@);
    assert(out@ =~= enc_bundle(lb.magic@, lb.version, lb.name@, bytecode_view(lb.bytecode), ev));
    out
}

#[verifier::rlimit(100)]
#[verifier::spinoff_prover]
fn put_op(out: &mut Vec<u8>, op: &OpCode)
    ensures
        final(out)@ == old(out)@ + enc_op(op_view(*op)),
    decreases op, 1int,
{
    let ghost start = out@;
    match op {
        OpCode::PushStr(s) => {
            put_u32(out, 0u32);
            put_str(out, s);
            assert(out@ =~= start + enc_op(op_view(*op)));
        },
        OpCode::PushInt(n) => {
            put_u32(out, 1u32);
            put_u64(out, *n);
            assert(out@ =~= start + enc_op(op_view(*op)));
        },
        OpCode::PushFloat(s) => {
            put_u32(out, 2u32);
            put_str(out, s);
            assert(out@ =~= start + enc_op(op_view(*op)));
        },
        OpCode::StoreLocal(s) => {
            put_u32(out, 3u32);
            put_str(out, s);
            assert(out@ =~= start + enc_op(op_view(*op)));
        },
        OpCode::LoadLocal(s) => {
            put_u32(out, 4u32);
            put_str(out, s);
            assert(out@ =~= start + enc_op(op_view(*op)));
        },
        OpCode::CtxAlloc(n) => {
            put_u32(out, 5u32);
            put_u32(out, *n);
            assert(out@ =~= start + enc_op(op_view(*op)));
        },
        OpCode::CtxFreeStack => {
            put_u32(out, 6u32);
            assert(out@ =~= start + enc_op(op_view(*op)));
        },
        OpCode::CtxAppendStack => {
            put_u32(out, 7u32);
            assert(out@ =~= start + enc_op(op_view(*op)));
        },
        OpCode::CtxCompress => {
            put_u32(out, 8u32);
            assert(out@ =~= start + enc_op(op_view(*op)));
        },
        OpCode::CtxResize(r, n) => {
            put_u32(out, 9u32);
            put_u8(out, *r);
            put_u32(out, *n);
            assert(out@ =~= start + enc_op(op_view(*op)));
        },
        OpCode::Return => {
            put_u32(out, 10u32);
            assert(out@ =~= start + enc_op(op_view(*op)));
        },
        OpCode::Halt => {
            put_u32(out, 11u32);
            assert(out@ =~= start + enc_op(op_view(*op)));
        },
        OpCode::Jump(t) => {
            put_u32(out, 12u32);
            put_usize(out, *t);
            assert(out@ =~= start + enc_op(op_view(*op)));
        },
        OpCode::JumpIfFalse(t) => {
            put_u32(out, 13u32);
            put_usize(out, *t);
            assert(out@ =~= start + enc_op(op_view(*op)));
        },
        OpCode::CallKernel(k) => {
            put_u32(out, 14u32);
            put_u16(out, *k);
            assert(out@ =~= start + enc_op(op_view(*op)));
        },
        OpCode::Println => {
            put_u32(out, 15u32);
            assert(out@ =~= start + enc_op(op_view(*op)));
        },
        OpCode::BranchClassify { var, cases, default } => {
            put_u32(out, 16u32);
            put_str(out, var);
            proof { assert(decreases_to!(op => *cases)); }
            put_arms(out, cases);
            proof { assert(decreases_to!(op => *default)); }
            put_ops(out, default);
            assert(out@ =~= start + enc_op(op_view(*op)));
        },
        OpCode::InferClassify(labels) => {
            put_u32(out, 17u32);
            put_strs(out, labels);
            assert(out@ =~= start + enc_op(op_view(*op)));
        },
        OpCode::Observe => {
            put_u32(out, 18u32);
            assert(out@ =~= start + enc_op(op_view(*op)));
        },
        OpCode::Reason(s) => {
            put_u32(out, 19u32);
            put_str(out, s);
            assert(out@ =~= start + enc_op(op_view(*op)));
        },
        OpCode::Act => {
            put_u32(out, 20u32);
            assert(out@ =~= start + enc_op(op_view(*op)));
        },
        OpCode::VerifyStep => {
            put_u32(out, 21u32);
            assert(out@ =~= start + enc_op(op_view(*op)));
        },
        OpCode::BeginInterruptible => {
            put_u32(out, 22u32);
            assert(out@ =~= start + enc_op(op_view(*op)));
        },
        OpCode::EndInterruptible => {
            put_u32(out, 23u32);
            assert(out@ =~= start + enc_op(op_view(*op)));
        },
        OpCode::CmpEq => {
            put_u32(out, 24u32);
            assert(out@ =~= start + enc_op(op_view(*op)));
        },
        OpCode::CmpNotEq => {
            put_u32(out, 25u32);
            assert(out@ =~= start + enc_op(op_view(*op)));
        },
        OpCode::CmpGt => {
            put_u32(out, 26u32);
            assert(out@ =~= start + enc_op(op_view(*op)));
        },
        OpCode::CmpLt => {
            put_u32(out, 27u32);
            assert(out@ =~= start + enc_op(op_view(*op)));
        },
        OpCode::Add => {
            put_u32(out, 28u32);
            assert(out@ =~= start + enc_op(op_view(*op)));
        },
        OpCode::Sub => {
            put_u32(out, 29u32);
            assert(out@ =~= start + enc_op(op_view(*op)));
        },
        OpCode::Mul => {
            put_u32(out, 30u32);
            assert(out@ =~= start + enc_op(op_view(*op)));
        },
        OpCode::Div => {
            put_u32(out, 31u32);
            assert(out@ =~= start + enc_op(op_view(*op)));
        },
        OpCode::Mod => {
            put_u32(out, 32u32);
            assert(out@ =~= start + enc_op(op_view(*op)));
        },
        OpCode::And => {
            put_u32(out, 33u32);
            assert(out@ =~= start + enc_op(op_view(*op)));
        },
        OpCode::Or => {
            put_u32(out, 34u32);
            assert(out@ =~= start + enc_op(op_view(*op)));
        },
        OpCode::PushBool(b) => {
            put_u32(out, 35u32);
            put_bool(out, *b);
            assert(out@ =~= start + enc_op(op_view(*op)));
        },
        OpCode::TuplePack(n) => {
            put_u32(out, 36u32);
            put_u8(out, *n);
            assert(out@ =~= start + enc_op(op_view(*op)));
        },
        OpCode::VecNew(n) => {
            put_u32(out, 37u32);
            put_u8(out, *n);
            assert(out@ =~= start + enc_op(op_view(*op)));
        },
        OpCode::VecGet => {
            put_u32(out, 38u32);
            assert(out@ =~= start + enc_op(op_view(*op)));
        },
        OpCode::VecSet => {
            put_u32(out, 39u32);
            assert(out@ =~= start + enc_op(op_view(*op)));
        },
        OpCode::VecLen => {
            put_u32(out, 40u32);
            assert(out@ =~= start + enc_op(op_view(*op)));
        },
        OpCode::VecPush => {
            put_u32(out, 41u32);
            assert(out@ =~= start + enc_op(op_view(*op)));
        },
        OpCode::FieldAccess(s) => {
            put_u32(out, 42u32);
            put_str(out, s);
            assert(out@ =~= start + enc_op(op_view(*op)));
        },
        OpCode::StructConstruct { name, field_names } => {
            put_u32(out, 43u32);
            put_str(out, name);
            put_strs(out, field_names);
            assert(out@ =~= start + enc_op(op_view(*op)));
        },
        OpCode::EnumVariant { variant, payload } => {
            put_u32(out, 44u32);
            put_str(out, variant);
            put_bool(out, *payload);
            assert(out@ =~= start + enc_op(op_view(*op)));
        },
        OpCode::SetAgentMeta(s) => {
            put_u32(out, 45u32);
            put_str(out, s);
            assert(out@ =~= start + enc_op(op_view(*op)));
        },
        OpCode::CtxAppendLiteral(s) => {
            put_u32(out, 46u32);
            put_str(out, s);
            assert(out@ =~= start + enc_op(op_view(*op)));
        },
        OpCode::RegisterSkill(s) => {
            put_u32(out, 47u32);
            put_str(out, s);
            assert(out@ =~= start + enc_op(op_view(*op)));
        },
        OpCode::AllocMemorySlot(s) => {
            put_u32(out, 48u32);
            put_str(out, s);
            assert(out@ =~= start + enc_op(op_view(*op)));
        },
        OpCode::LoadMemory(s) => {
            put_u32(out, 49u32);
            put_str(out, s);
            assert(out@ =~= start + enc_op(op_view(*op)));
        },
        OpCode::StoreMemory(s) => {
            put_u32(out, 50u32);
            put_str(out, s);
            assert(out@ =~= start + enc_op(op_view(*op)));
        },
        OpCode::CallOracle(s, n) => {
            put_u32(out, 51u32);
            put_str(out, s);
            put_u8(out, *n);
            assert(out@ =~= start + enc_op(op_view(*op)));
        },
        OpCode::BeginConstraint(s) => {
            put_u32(out, 52u32);
            put_str(out, s);
            assert(out@ =~= start + enc_op(op_view(*op)));
        },
        OpCode::EndConstraint => {
            put_u32(out, 53u32);
            assert(out@ =~= start + enc_op(op_view(*op)));
        },
        OpCode::ConstraintVerify => {
            put_u32(out, 54u32);
            assert(out@ =~= start + enc_op(op_view(*op)));
        },
        OpCode::PersistLoad => {
            put_u32(out, 55u32);
            assert(out@ =~= start + enc_op(op_view(*op)));
        },
        OpCode::PersistSave => {
            put_u32(out, 56u32);
            assert(out@ =~= start + enc_op(op_view(*op)));
        },
        OpCode::PersistDelete => {
            put_u32(out, 57u32);
            assert(out@ =~= start + enc_op(op_view(*op)));
        },
        OpCode::StoreLore(a, b) => {
            put_u32(out, 58u32);
            put_str(out, a);
            put_str(out, b);
            assert(out@ =~= start + enc_op(op_view(*op)));
        },
        OpCode::LoadLore(s) => {
            put_u32(out, 59u32);
            put_str(out, s);
            assert(out@ =~= start + enc_op(op_view(*op)));
        },
        OpCode::CtxShare => {
            put_u32(out, 60u32);
            assert(out@ =~= start + enc_op(op_view(*op)));
        },
    }
}

// ── Exec: decoding ───────────────────────────────────────────────────────────

/// `String::from_utf8`: the bytes as a string when they are valid UTF-8.
#[verifier::external_body]
fn string_from_utf8(bytes: Vec<u8>) -> (r: Option<String>)
    ensures
        match r {
            Some(s) => valid_utf8(bytes@) && s@ == decode_utf8(bytes@),
            None => !valid_utf8(bytes@),
        },
{
    match String::from_utf8(bytes) {
        Ok(s) => Some(s),
        Err(_) => None,
    }
}

fn get_u8(b: &Vec<u8>, p: usize) -> (r: Option<(u8, usize)>)
    ensures
        match r {
            Some((v, q)) => dec_u8(b@, p as int) == Some((v, q as int)) && p < q <= b.len(),
            None => dec_u8(b@, p as int) is None,
        },
{
    if p < b.len() {
        Some((b[p], p + 1))
    } else {
        None
    }
}

fn get_u16(b: &Vec<u8>, p: usize) -> (r: Option<(u16, usize)>)
    ensures
        match r {
            Some((v, q)) => dec_u16(b@, p as int) == Some((v, q as int)) && p < q <= b.len(),
            None => dec_u16(b@, p as int) is None,
        },
{
    if p <= b.len() && b.len() - p >= 2 {
        Some(((b[p] as u16) | ((b[p + 1] as u16) << 8u16), p + 2))
    } else {
        None
    }
}

fn get_u32(b: &Vec<u8>, p: usize) -> (r: Option<(u32, usize)>)
    ensures
        match r {
            Some((v, q)) => dec_u32(b@, p as int) == Some((v, q as int)) && p < q <= b.len(),
            None => dec_u32(b@, p as int) is None,
        },
{
    if p <= b.len() && b.len() - p >= 4 {
        Some(
            (
                (b[p] as u32) | ((b[p + 1] as u32) << 8u32) | ((b[p + 2] as u32) << 16u32) | ((b[p + 3] as u32)
                    << 24u32),
                p + 4,
            ),
        )
    } else {
        None
    }
}

fn get_u64(b: &Vec<u8>, p: usize) -> (r: Option<(u64, usize)>)
    ensures
        match r {
            Some((v, q)) => dec_u64(b@, p as int) == Some((v, q as int)) && p < q <= b.len(),
            None => dec_u64(b@, p as int) is None,
        },
{
    if p <= b.len() && b.len() - p >= 8 {
        let v = (b[p] as u64) | ((b[p + 1] as u64) << 8u64) | ((b[p + 2] as u64) << 16u64) | ((b[p + 3] as u64)
            << 24u64) | ((b[p + 4] as u64) << 32u64) | ((b[p + 5] as u64) << 40u64) | ((b[p + 6] as u64) << 48u64)
            | ((b[p + 7] as u64) << 56u64);
        Some((v, p + 8))
    } else {
        None
    }
}

fn get_usize(b: &Vec<u8>, p: usize) -> (r: Option<(usize, usize)>)
    ensures
        match r {
            Some((v, q)) => dec_usize(b@, p as int) == Some((v, q as int)) && p < q <= b.len(),
            None => dec_usize(b@, p as int) is None,
        },
{
    match get_u64(b, p) {
        Some((v, q)) => if v <= usize::MAX as u64 {
            Some((v as usize, q))
        } else {
            None
        },
        None => None,
    }
}

fn get_bool(b: &Vec<u8>, p: usize) -> (r: Option<(bool, usize)>)
    ensures
        match r {
            Some((v, q)) => dec_bool(b@, p as int) == Some((v, q as int)) && p < q <= b.len(),
            None => dec_bool(b@, p as int) is None,
        },
{
    match get_u8(b, p) {
        Some((v, q)) => if v == 0 {
            Some((false, q))
        } else if v == 1 {
            Some((true, q))
        } else {
            None
        },
        None => None,
    }
}

fn get_str(b: &Vec<u8>, p: usize) -> (r: Option<(String, usize)>)
    ensures
        match r {
            Some((s, q)) => dec_str(b@, p as int) == Some((s@, q as int)) && p < q <= b.len(),
            None => dec_str(b@, p as int) is None,
        },
{
    let (n, q) = match get_u64(b, p) {
        Some(x) => x,
        None => {
            return None;
        },
    };
    if ((b.len() - q) as u64) < n {
        return None;
    }
    let n = n as usize;
    let mut bytes: Vec<u8> = Vec::new();
    let mut i: usize = 0;
    while i < n
        invariant
            q + n <= b.len(),
            i <= n,
            bytes@ == b@.subrange(q as int, q + i),
        decreases n - i,
    {
        bytes.push(b[q + i]);
        assert(b@.subrange(q as int, q + i + 1) =~= b@.subrange(q as int, q + i).push(b@[q + i]));
        i = i + 1;
    }
    match string_from_utf8(bytes) {
        Some(s) => Some((s, q + n)),
        None => None,
    }
}

fn get_strs(b: &Vec<u8>, p: usize) -> (r: Option<(Vec<String>, usize)>)
    ensures
        match r {
            Some((ss, q)) => dec_strs(b@, p as int) == Some((strings_view(ss@), q as int)) && p < q <= b.len(),
            None => dec_strs(b@, p as int) is None,
        },
{
    let (n, q0) = match get_u64(b, p) {
        Some(x) => x,
        None => {
            return None;
        },
    };
    let mut acc: Vec<String> = Vec::new();
    assert(strings_view(acc@) =~= Seq::<Seq<char>>::empty());
    let mut q = q0;
    let mut k: u64 = 0;
    while k < n
        invariant
            k <= n,
            p < q0 <= q <= b.len(),
            dec_strs(b@, p as int) == dec_strs_n(b@, q as int, (n - k) as nat, strings_view(acc@)),
        decreases n - k,
    {
        match get_str(b, q) {
            Some((s, q2)) => {
                let ghost before = strings_view(acc@);
                acc.push(s);
                assert(strings_view(acc@) =~= before.push(s@));
                q = q2;
            },
            None => {
                return None;
            },
        }
        k = k + 1;
    }
    Some((acc, q))
}

fn get_op(b: &Vec<u8>, p: usize) -> (r: Option<(OpCode, usize)>)
    requires
        p <= b.len(),
    ensures
        match r {
            Some((op, q)) => dec_op(b@, p as int) == Some((op_view(op), q as int)) && p < q <= b.len(),
            None => dec_op(b@, p as int) is None,
        },
    decreases b.len() - p, 1int,
{
    match get_u32(b, p) {
        Some((tag, q)) => get_op_fields(b, tag, q),
        None => None,
    }
}

fn get_ops(b: &Vec<u8>, p: usize) -> (r: Option<(Vec<OpCode>, usize)>)
    requires
        p <= b.len(),
    ensures
        match r {
            Some((ops, q)) => dec_ops(b@, p as int) == Some((ops_view(ops@), q as int)) && p < q <= b.len(),
            None => dec_ops(b@, p as int) is None,
        },
    decreases b.len() - p, 0int,
{
    let (n, q0) = match get_u64(b, p) {
        Some(x) => x,
        None => {
            return None;
        },
    };
    let mut acc: Vec<OpCode> = Vec::new();
    assert(ops_view(acc@) =~= Seq::<OpV>::empty());
    let mut q = q0;
    let mut k: u64 = 0;
    while k < n
        invariant
            k <= n,
            p < q0 <= q <= b.len(),
            dec_ops(b@, p as int) == dec_ops_n(b@, q as int, (n - k) as nat, ops_view(acc@)),
        decreases n - k,
    {
        match get_op(b, q) {
            Some((op, q2)) => {
                proof {
                    lemma_ops_view_push(acc@, op);
                }
                acc.push(op);
                q = q2;
            },
            None => {
                return None;
            },
        }
        k = k + 1;
    }
    Some((acc, q))
}

fn get_arms(b: &Vec<u8>, p: usize) -> (r: Option<(Vec<(String, String, Vec<OpCode>)>, usize)>)
    requires
        p <= b.len(),
    ensures
        match r {
            Some((arms, q)) => dec_arms(b@, p as int) == Some((arms_view(arms@), q as int)) && p < q <= b.len(),
            None => dec_arms(b@, p as int) is None,
        },
    decreases b.len() - p, 0int,
{
    let (n, q0) = match get_u64(b, p) {
        Some(x) => x,
        None => {
            return None;
        },
    };
    let mut acc: Vec<(String, String, Vec<OpCode>)> = Vec::new();
    assert(arms_view(acc@) =~= Seq::<(Seq<char>, Seq<char>, Seq<OpV>)>::empty());
    let mut q = q0;
    let mut k: u64 = 0;
    while k < n
        invariant
            k <= n,
            p < q0 <= q <= b.len(),
            dec_arms(b@, p as int) == dec_arms_n(b@, q as int, (n - k) as nat, arms_view(acc@)),
        decreases n - k,
    {
        let (l, q1) = match get_str(b, q) {
            Some(x) => x,
            None => {
                return None;
            },
        };
        let (c, q2) = match get_str(b, q1) {
            Some(x) => x,
            None => {
                return None;
            },
        };
        let (body, q3) = match get_ops(b, q2) {
            Some(x) => x,
            None => {
                return None;
            },
        };
        let arm = (l, c, body);
        proof {
            lemma_arms_view_push(acc@, arm);
        }
        acc.push(arm);
        q = q3;
        k = k + 1;
    }
    Some((acc, q))
}

fn get_kernel(b: &Vec<u8>, p: usize) -> (r: Option<(KernelBytecode, usize)>)
    requires
        p <= b.len(),
    ensures
        match r {
            Some((k, q)) => dec_kernel(b@, p as int) == Some((kernel_view(k), q as int)) && p < q <= b.len(),
            None => dec_kernel(b@, p as int) is None,
        },
{
    let (name, q0) = match get_str(b, p) {
        Some(x) => x,
        None => {
            return None;
        },
    };
    let (params, q1) = match get_strs(b, q0) {
        Some(x) => x,
        None => {
            return None;
        },
    };
    let (body, q2) = match get_ops(b, q1) {
        Some(x) => x,
        None => {
            return None;
        },
    };
    let (max_retries, q3) = match get_u8(b, q2) {
        Some(x) => x,
        None => {
            return None;
        },
    };
    Some((KernelBytecode { name, params, body, max_retries }, q3))
}

/// Reads a compiled program from the start of `bytes`.
pub fn decode_bytecode(bytes: &Vec<u8>) -> (r: Option<Bytecode>)
    ensures
        match r {
            Some(bc) => dec_bytecode(bytes@) matches Some((v, _)) && v == bytecode_view(bc),
            None => dec_bytecode(bytes@) is None,
        },
{
    if bytes.len() < 4 {
        return None;
    }
    let magic: [u8; 4] = [bytes[0], bytes[1], bytes[2], bytes[3]];
    assert(magic@ =~= bytes@.subrange(0, 4));
    let (version, q0) = match get_u16(bytes, 4) {
        Some(x) => x,
        None => {
            return None;
        },
    };
    let (n, q1) = match get_u64(bytes, q0) {
        Some(x) => x,
        None => {
            return None;
        },
    };
    let mut kernels: Vec<KernelBytecode> = Vec::new();
    assert(kernels_view(kernels@) =~= Seq::<KernelV>::empty());
    let mut q = q1;
    let mut k: u64 = 0;
    while k < n
        invariant
            k <= n,
            q1 <= q <= bytes.len(),
            bytes.len() >= 4,
            dec_u16(bytes@, 4) == Some((version, q0 as int)),
            dec_u64(bytes@, q0 as int) == Some((n, q1 as int)),
            dec_kernels_n(bytes@, q1 as int, n as nat, Seq::empty()) == dec_kernels_n(
                bytes@,
                q as int,
                (n - k) as nat,
                kernels_view(kernels@),
            ),
        decreases n - k,
    {
        match get_kernel(bytes, q) {
            Some((kb, q2)) => {
                let ghost before = kernels_view(kernels@);
                kernels.push(kb);
                assert(kernels_view(kernels@) =~= before.push(kernel_view(kb)));
                q = q2;
            },
            None => {
                return None;
            },
        }
        k = k + 1;
    }
    let (instructions, _) = match get_ops(bytes, q) {
        Some(x) => x,
        None => {
            return None;
        },
    };
    Some(Bytecode { magic, version, kernels, instructions })
}

#[verifier::rlimit(100)]
#[verifier::spinoff_prover]
fn get_op_fields(b: &Vec<u8>, tag: u32, p: usize) -> (r: Option<(OpCode, usize)>)
    requires
        p <= b.len(),
    ensures
        match r {
            Some((op, q)) => dec_op_fields(b@, tag, p as int) == Some((op_view(op), q as int)) && p <= q <= b.len(),
            None => dec_op_fields(b@, tag, p as int) is None,
        },
    decreases b.len() - p, 0int,
{
    if tag == 0u32 {
        let (x_s, q0) = match get_str(b, p) {
            Some(x) => x,
            None => {
                return None;
            },
        };
        Some((OpCode::PushStr(x_s), q0))
    } else if tag == 1u32 {
        let (x_n, q0) = match get_u64(b, p) {
            Some(x) => x,
            None => {
                return None;
            },
        };
        Some((OpCode::PushInt(x_n), q0))
    } else if tag == 2u32 {
        let (x_s, q0) = match get_str(b, p) {
            Some(x) => x,
            None => {
                return None;
            },
        };
        Some((OpCode::PushFloat(x_s), q0))
    } else if tag == 3u32 {
        let (x_s, q0) = match get_str(b, p) {
            Some(x) => x,
            None => {
                return None;
            },
        };
        Some((OpCode::StoreLocal(x_s), q0))
    } else if tag == 4u32 {
        let (x_s, q0) = match get_str(b, p) {
            Some(x) => x,
            None => {
                return None;
            },
        };
        Some((OpCode::LoadLocal(x_s), q0))
    } else if tag == 5u32 {
        let (x_n, q0) = match get_u32(b, p) {
            Some(x) => x,
            None => {
                return None;
            },
        };
        Some((OpCode::CtxAlloc(x_n), q0))
    } else if tag == 6u32 {
        Some((OpCode::CtxFreeStack, p))
    } else if tag == 7u32 {
        Some((OpCode::CtxAppendStack, p))
    } else if tag == 8u32 {
        Some((OpCode::CtxCompress, p))
    } else if tag == 9u32 {
        let (x_r, q0) = match get_u8(b, p) {
            Some(x) => x,
            None => {
                return None;
            },
        };
        let (x_n, q1) = match get_u32(b, q0) {
            Some(x) => x,
            None => {
                return None;
            },
        };
        Some((OpCode::CtxResize(x_r, x_n), q1))
    } else if tag == 10u32 {
        Some((OpCode::Return, p))
    } else if tag == 11u32 {
        Some((OpCode::Halt, p))
    } else if tag == 12u32 {
        let (x_t, q0) = match get_usize(b, p) {
            Some(x) => x,
            None => {
                return None;
            },
        };
        Some((OpCode::Jump(x_t), q0))
    } else if tag == 13u32 {
        let (x_t, q0) = match get_usize(b, p) {
            Some(x) => x,
            None => {
                return None;
            },
        };
        Some((OpCode::JumpIfFalse(x_t), q0))
    } else if tag == 14u32 {
        let (x_k, q0) = match get_u16(b, p) {
            Some(x) => x,
            None => {
                return None;
            },
        };
        Some((OpCode::CallKernel(x_k), q0))
    } else if tag == 15u32 {
        Some((OpCode::Println, p))
    } else if tag == 16u32 {
        let (x_var, q0) = match get_str(b, p) {
            Some(x) => x,
            None => {
                return None;
            },
        };
        let (x_cases, q1) = match get_arms(b, q0) {
            Some(x) => x,
            None => {
                return None;
            },
        };
        let (x_default, q2) = match get_ops(b, q1) {
            Some(x) => x,
            None => {
                return None;
            },
        };
        Some((OpCode::BranchClassify { var: x_var, cases: x_cases, default: x_default }, q2))
    } else if tag == 17u32 {
        let (x_labels, q0) = match get_strs(b, p) {
            Some(x) => x,
            None => {
                return None;
            },
        };
        Some((OpCode::InferClassify(x_labels), q0))
    } else if tag == 18u32 {
        Some((OpCode::Observe, p))
    } else if tag == 19u32 {
        let (x_s, q0) = match get_str(b, p) {
            Some(x) => x,
            None => {
                return None;
            },
        };
        Some((OpCode::Reason(x_s), q0))
    } else if tag == 20u32 {
        Some((OpCode::Act, p))
    } else if tag == 21u32 {
        Some((OpCode::VerifyStep, p))
    } else if tag == 22u32 {
        Some((OpCode::BeginInterruptible, p))
    } else if tag == 23u32 {
        Some((OpCode::EndInterruptible, p))
    } else if tag == 24u32 {
        Some((OpCode::CmpEq, p))
    } else if tag == 25u32 {
        Some((OpCode::CmpNotEq, p))
    } else if tag == 26u32 {
        Some((OpCode::CmpGt, p))
    } else if tag == 27u32 {
        Some((OpCode::CmpLt, p))
    } else if tag == 28u32 {
        Some((OpCode::Add, p))
    } else if tag == 29u32 {
        Some((OpCode::Sub, p))
    } else if tag == 30u32 {
        Some((OpCode::Mul, p))
    } else if tag == 31u32 {
        Some((OpCode::Div, p))
    } else if tag == 32u32 {
        Some((OpCode::Mod, p))
    } else if tag == 33u32 {
        Some((OpCode::And, p))
    } else if tag == 34u32 {
        Some((OpCode::Or, p))
    } else if tag == 35u32 {
        let (x_b, q0) = match get_bool(b, p) {
            Some(x) => x,
            None => {
                return None;
            },
        };
        Some((OpCode::PushBool(x_b), q0))
    } else if tag == 36u32 {
        let (x_n, q0) = match get_u8(b, p) {
            Some(x) => x,
            None => {
                return None;
            },
        };
        Some((OpCode::TuplePack(x_n), q0))
    } else if tag == 37u32 {
        let (x_n, q0) = match get_u8(b, p) {
            Some(x) => x,
            None => {
                return None;
            },
        };
        Some((OpCode::VecNew(x_n), q0))
    } else if tag == 38u32 {
        Some((OpCode::VecGet, p))
    } else if tag == 39u32 {
        Some((OpCode::VecSet, p))
    } else if tag == 40u32 {
        Some((OpCode::VecLen, p))
    } else if tag == 41u32 {
        Some((OpCode::VecPush, p))
    } else if tag == 42u32 {
        let (x_s, q0) = match get_str(b, p) {
            Some(x) => x,
            None => {
                return None;
            },
        };
        Some((OpCode::FieldAccess(x_s), q0))
    } else if tag == 43u32 {
        let (x_name, q0) = match get_str(b, p) {
            Some(x) => x,
            None => {
                return None;
            },
        };
        let (x_field_names, q1) = match get_strs(b, q0) {
            Some(x) => x,
            None => {
                return None;
            },
        };
        Some((OpCode::StructConstruct { name: x_name, field_names: x_field_names }, q1))
    } else if tag == 44u32 {
        let (x_variant, q0) = match get_str(b, p) {
            Some(x) => x,
            None => {
                return None;
            },
        };
        let (x_payload, q1) = match get_bool(b, q0) {
            Some(x) => x,
            None => {
                return None;
            },
        };
        Some((OpCode::EnumVariant { variant: x_variant, payload: x_payload }, q1))
    } else if tag == 45u32 {
        let (x_s, q0) = match get_str(b, p) {
            Some(x) => x,
            None => {
                return None;
            },
        };
        Some((OpCode::SetAgentMeta(x_s), q0))
    } else if tag == 46u32 {
        let (x_s, q0) = match get_str(b, p) {
            Some(x) => x,
            None => {
                return None;
            },
        };
        Some((OpCode::CtxAppendLiteral(x_s), q0))
    } else if tag == 47u32 {
        let (x_s, q0) = match get_str(b, p) {
            Some(x) => x,
            None => {
                return None;
            },
        };
        Some((OpCode::RegisterSkill(x_s), q0))
    } else if tag == 48u32 {
        let (x_s, q0) = match get_str(b, p) {
            Some(x) => x,
            None => {
                return None;
            },
        };
        Some((OpCode::AllocMemorySlot(x_s), q0))
    } else if tag == 49u32 {
        let (x_s, q0) = match get_str(b, p) {
            Some(x) => x,
            None => {
                return None;
            },
        };
        Some((OpCode::LoadMemory(x_s), q0))
    } else if tag == 50u32 {
        let (x_s, q0) = match get_str(b, p) {
            Some(x) => x,
            None => {
                return None;
            },
        };
        Some((OpCode::StoreMemory(x_s), q0))
    } else if tag == 51u32 {
        let (x_s, q0) = match get_str(b, p) {
            Some(x) => x,
            None => {
                return None;
            },
        };
        let (x_n, q1) = match get_u8(b, q0) {
            Some(x) => x,
            None => {
                return None;
            },
        };
        Some((OpCode::CallOracle(x_s, x_n), q1))
    } else if tag == 52u32 {
        let (x_s, q0) = match get_str(b, p) {
            Some(x) => x,
            None => {
                return None;
            },
        };
        Some((OpCode::BeginConstraint(x_s), q0))
    } else if tag == 53u32 {
        Some((OpCode::EndConstraint, p))
    } else if tag == 54u32 {
        Some((OpCode::ConstraintVerify, p))
    } else if tag == 55u32 {
        Some((OpCode::PersistLoad, p))
    } else if tag == 56u32 {
        Some((OpCode::PersistSave, p))
    } else if tag == 57u32 {
        Some((OpCode::PersistDelete, p))
    } else if tag == 58u32 {
        let (x_a, q0) = match get_str(b, p) {
            Some(x) => x,
            None => {
                return None;
            },
        };
        let (x_b, q1) = match get_str(b, q0) {
            Some(x) => x,
            None => {
                return None;
            },
        };
        Some((OpCode::StoreLore(x_a, x_b), q1))
    } else if tag == 59u32 {
        let (x_s, q0) = match get_str(b, p) {
            Some(x) => x,
            None => {
                return None;
            },
        };
        Some((OpCode::LoadLore(x_s), q0))
    } else if tag == 60u32 {
        Some((OpCode::CtxShare, p))
    } else {
        None
    }
}

// ── What the decoder reads back ──────────────────────────────────────────────

proof fn lemma_split(b: Seq<u8>, p: int, x: Seq<u8>, y: Seq<u8>)
    requires
        0 <= p,
        p + x.len() + y.len() <= b.len(),
        b.subrange(p, p + x.len() + y.len()) == x + y,
    ensures
        b.subrange(p, p + x.len()) == x,
        b.subrange(p + x.len(), p + x.len() + y.len()) == y,
{
    assert forall|i: int| 0 <= i < x.len() implies b.subrange(p, p + x.len())[i] == x[i] by {
        assert(b.subrange(p, p + x.len() + y.len())[i] == (x + y)[i]);
    }
    assert forall|i: int| 0 <= i < y.len() implies b.subrange(p + x.len(), p + x.len() + y.len())[i] == y[i] by {
        assert(b.subrange(p, p + x.len() + y.len())[x.len() + i] == (x + y)[x.len() + i]);
        assert(b.subrange(p + x.len(), p + x.len() + y.len())[i] == b[p + x.len() + i]);
        assert(b.subrange(p, p + x.len() + y.len())[x.len() + i] == b[p + x.len() + i]);
    }
    assert(b.subrange(p, p + x.len()) =~= x);
    assert(b.subrange(p + x.len(), p + x.len() + y.len()) =~= y);
}

proof fn lemma_join(b: Seq<u8>, p: int, q: int, r: int)
    requires
        0 <= p <= q <= r <= b.len(),
    ensures
        b.subrange(p, r) == b.subrange(p, q) + b.subrange(q, r),
{
    assert(b.subrange(p, r) =~= b.subrange(p, q) + b.subrange(q, r));
}

proof fn lemma_read_u8(b: Seq<u8>, p: int, x: u8)
    requires
        0 <= p,
        p + 1 <= b.len(),
        b.subrange(p, p + 1) == enc_u8(x),
    ensures
        dec_u8(b, p) == Some((x, p + 1)),
{
    assert(b.subrange(p, p + 1)[0] == b[p]);
}

proof fn lemma_read_u16(b: Seq<u8>, p: int, x: u16)
    requires
        0 <= p,
        p + 2 <= b.len(),
        b.subrange(p, p + 2) == enc_u16(x),
    ensures
        dec_u16(b, p) == Some((x, p + 2)),
{
    assert(b.subrange(p, p + 2)[0] == b[p]);
    assert(b.subrange(p, p + 2)[1] == b[p + 1]);
    assert(((x & 0xffu16) as u8 as u16) | ((((x >> 8u16) & 0xffu16) as u8 as u16) << 8u16) == x) by (bit_vector);
}

proof fn lemma_read_u32(b: Seq<u8>, p: int, x: u32)
    requires
        0 <= p,
        p + 4 <= b.len(),
        b.subrange(p, p + 4) == enc_u32(x),
    ensures
        dec_u32(b, p) == Some((x, p + 4)),
{
    assert(b.subrange(p, p + 4)[0] == b[p]);
    assert(b.subrange(p, p + 4)[1] == b[p + 1]);
    assert(b.subrange(p, p + 4)[2] == b[p + 2]);
    assert(b.subrange(p, p + 4)[3] == b[p + 3]);
    assert(((x & 0xffu32) as u8 as u32) | ((((x >> 8u32) & 0xffu32) as u8 as u32) << 8u32) | ((((x >> 16u32)
        & 0xffu32) as u8 as u32) << 16u32) | ((((x >> 24u32) & 0xffu32) as u8 as u32) << 24u32) == x) by (bit_vector);
}

proof fn lemma_read_u64(b: Seq<u8>, p: int, x: u64)
    requires
        0 <= p,
        p + 8 <= b.len(),
        b.subrange(p, p + 8) == enc_u64(x),
    ensures
        dec_u64(b, p) == Some((x, p + 8)),
{
    assert(b.subrange(p, p + 8)[0] == b[p]);
    assert(b.subrange(p, p + 8)[1] == b[p + 1]);
    assert(b.subrange(p, p + 8)[2] == b[p + 2]);
    assert(b.subrange(p, p + 8)[3] == b[p + 3]);
    assert(b.subrange(p, p + 8)[4] == b[p + 4]);
    assert(b.subrange(p, p + 8)[5] == b[p + 5]);
    assert(b.subrange(p, p + 8)[6] == b[p + 6]);
    assert(b.subrange(p, p + 8)[7] == b[p + 7]);
    assert(((x & 0xffu64) as u8 as u64) | ((((x >> 8u64) & 0xffu64) as u8 as u64) << 8u64) | ((((x >> 16u64)
        & 0xffu64) as u8 as u64) << 16u64) | ((((x >> 24u64) & 0xffu64) as u8 as u64) << 24u64) | ((((x >> 32u64)
        & 0xffu64) as u8 as u64) << 32u64) | ((((x >> 40u64) & 0xffu64) as u8 as u64) << 40u64) | ((((x >> 48u64)
        & 0xffu64) as u8 as u64) << 48u64) | ((((x >> 56u64) & 0xffu64) as u8 as u64) << 56u64) == x) by (bit_vector);
}

proof fn lemma_read_usize(b: Seq<u8>, p: int, x: usize)
    requires
        0 <= p,
        p + 8 <= b.len(),
        b.subrange(p, p + 8) == enc_usize(x),
    ensures
        dec_usize(b, p) == Some((x, p + 8)),
{
    lemma_read_u64(b, p, x as u64);
}

proof fn lemma_read_bool(b: Seq<u8>, p: int, x: bool)
    requires
        0 <= p,
        p + 1 <= b.len(),
        b.subrange(p, p + 1) == enc_bool(x),
    ensures
        dec_bool(b, p) == Some((x, p + 1)),
{
    assert(b.subrange(p, p + 1)[0] == b[p]);
}

proof fn lemma_read_str(b: Seq<u8>, p: int, s: Seq<char>)
    requires
        fits_str(s),
        0 <= p,
        p + enc_str(s).len() <= b.len(),
        b.subrange(p, p + enc_str(s).len()) == enc_str(s),
    ensures
        dec_str(b, p) == Some((s, p + enc_str(s).len())),
{
    let u = encode_utf8(s);
    lemma_split(b, p, enc_u64(u.len() as u64), u);
    lemma_read_u64(b, p, u.len() as u64);
    encode_utf8_valid_utf8(s);
    encode_utf8_decode_utf8(s);
}

proof fn lemma_read_strs_n(b: Seq<u8>, p: int, ss: Seq<Seq<char>>, acc: Seq<Seq<char>>)
    requires
        fits_strs(ss),
        0 <= p,
        p + strs_body(ss).len() <= b.len(),
        b.subrange(p, p + strs_body(ss).len()) == strs_body(ss),
    ensures
        dec_strs_n(b, p, ss.len(), acc) == Some((acc + ss, p + strs_body(ss).len())),
    decreases ss.len(),
{
    if ss.len() == 0 {
        assert(acc + ss =~= acc);
    } else {
        let rest = ss.subrange(1, ss.len() as int);
        lemma_split(b, p, enc_str(ss[0]), strs_body(rest));
        lemma_read_str(b, p, ss[0]);
        assert forall|i: int| 0 <= i < rest.len() implies fits_str(#[trigger] rest[i]) by {
            assert(rest[i] == ss[i + 1]);
        }
        lemma_read_strs_n(b, p + enc_str(ss[0]).len(), rest, acc.push(ss[0]));
        assert(acc.push(ss[0]) + rest =~= acc + ss);
    }
}

proof fn lemma_read_strs(b: Seq<u8>, p: int, ss: Seq<Seq<char>>)
    requires
        fits_strs(ss),
        0 <= p,
        p + enc_strs(ss).len() <= b.len(),
        b.subrange(p, p + enc_strs(ss).len()) == enc_strs(ss),
    ensures
        dec_strs(b, p) == Some((ss, p + enc_strs(ss).len())),
{
    lemma_split(b, p, enc_u64(ss.len() as u64), strs_body(ss));
    lemma_read_u64(b, p, ss.len() as u64);
    lemma_read_strs_n(b, p + 8, ss, Seq::empty());
    assert(Seq::<Seq<char>>::empty() + ss =~= ss);
}

// ── What the decoder reads came from the encoder ─────────────────────────────

proof fn lemma_back_u16(b: Seq<u8>, p: int)
    requires
        0 <= p,
        p + 2 <= b.len(),
    ensures
        enc_u16(u16_of(b[p], b[p + 1])) == b.subrange(p, p + 2),
{
    let (a0, a1) = (b[p], b[p + 1]);
    let v = u16_of(a0, a1);
    assert((v & 0xffu16) as u8 == a0 && ((v >> 8u16) & 0xffu16) as u8 == a1) by (bit_vector)
        requires
            v == (a0 as u16) | ((a1 as u16) << 8u16),
    ;
    assert(enc_u16(v) =~= b.subrange(p, p + 2));
}

proof fn lemma_back_u32(b: Seq<u8>, p: int)
    requires
        0 <= p,
        p + 4 <= b.len(),
    ensures
        enc_u32(u32_of(b[p], b[p + 1], b[p + 2], b[p + 3])) == b.subrange(p, p + 4),
{
    let (a0, a1, a2, a3) = (b[p], b[p + 1], b[p + 2], b[p + 3]);
    let v = u32_of(a0, a1, a2, a3);
    assert((v & 0xffu32) as u8 == a0 && ((v >> 8u32) & 0xffu32) as u8 == a1 && ((v >> 16u32) & 0xffu32) as u8 == a2
        && ((v >> 24u32) & 0xffu32) as u8 == a3) by (bit_vector)
        requires
            v == (a0 as u32) | ((a1 as u32) << 8u32) | ((a2 as u32) << 16u32) | ((a3 as u32) << 24u32),
    ;
    assert(enc_u32(v) =~= b.subrange(p, p + 4));
}

proof fn lemma_back_u64(b: Seq<u8>, p: int)
    requires
        0 <= p,
        p + 8 <= b.len(),
    ensures
        enc_u64(u64_of(b, p)) == b.subrange(p, p + 8),
{
    let (a0, a1, a2, a3, a4, a5, a6, a7) = (b[p], b[p + 1], b[p + 2], b[p + 3], b[p + 4], b[p + 5], b[p + 6], b[p + 7]);
    let v = u64_of(b, p);
    assert((v & 0xffu64) as u8 == a0 && ((v >> 8u64) & 0xffu64) as u8 == a1 && ((v >> 16u64) & 0xffu64) as u8 == a2
        && ((v >> 24u64) & 0xffu64) as u8 == a3 && ((v >> 32u64) & 0xffu64) as u8 == a4 && ((v >> 40u64) & 0xffu64)
        as u8 == a5 && ((v >> 48u64) & 0xffu64) as u8 == a6 && ((v >> 56u64) & 0xffu64) as u8 == a7) by (bit_vector)
        requires
            v == (a0 as u64) | ((a1 as u64) << 8u64) | ((a2 as u64) << 16u64) | ((a3 as u64) << 24u64) | ((a4 as u64)
                << 32u64) | ((a5 as u64) << 40u64) | ((a6 as u64) << 48u64) | ((a7 as u64) << 56u64),
    ;
    assert(enc_u64(v) =~= b.subrange(p, p + 8));
}

proof fn lemma_back_u8(b: Seq<u8>, p: int)
    requires
        dec_u8(b, p) is Some,
    ensures
        enc_u8((dec_u8(b, p)->0).0) == b.subrange(p, p + 1),
{
    assert(enc_u8(b[p]) =~= b.subrange(p, p + 1));
}

proof fn lemma_back_u16d(b: Seq<u8>, p: int)
    requires
        dec_u16(b, p) is Some,
    ensures
        enc_u16((dec_u16(b, p)->0).0) == b.subrange(p, p + 2),
{
    lemma_back_u16(b, p);
}

proof fn lemma_back_u32d(b: Seq<u8>, p: int)
    requires
        dec_u32(b, p) is Some,
    ensures
        enc_u32((dec_u32(b, p)->0).0) == b.subrange(p, p + 4),
{
    lemma_back_u32(b, p);
}

proof fn lemma_back_u64d(b: Seq<u8>, p: int)
    requires
        dec_u64(b, p) is Some,
    ensures
        enc_u64((dec_u64(b, p)->0).0) == b.subrange(p, p + 8),
{
    lemma_back_u64(b, p);
}

proof fn lemma_back_usize(b: Seq<u8>, p: int)
    requires
        dec_usize(b, p) is Some,
    ensures
        enc_usize((dec_usize(b, p)->0).0) == b.subrange(p, p + 8),
{
    lemma_back_u64(b, p);
}

proof fn lemma_back_bool(b: Seq<u8>, p: int)
    requires
        dec_bool(b, p) is Some,
    ensures
        enc_bool((dec_bool(b, p)->0).0) == b.subrange(p, p + 1),
{
    assert(enc_bool((dec_bool(b, p)->0).0) =~= b.subrange(p, p + 1));
}

proof fn lemma_back_str(b: Seq<u8>, p: int)
    requires
        dec_str(b, p) is Some,
    ensures
        p < (dec_str(b, p)->0).1 <= b.len(),
        fits_str((dec_str(b, p)->0).0),
        enc_str((dec_str(b, p)->0).0) == b.subrange(p, (dec_str(b, p)->0).1),
{
    let n = u64_of(b, p);
    let bytes = b.subrange(p + 8, p + 8 + n);
    lemma_back_u64(b, p);
    decode_utf8_encode_utf8(bytes);
    lemma_join(b, p, p + 8, p + 8 + n);
}

#[verifier::rlimit(50)]
#[verifier::spinoff_prover]
proof fn lemma_back_strs_n(b: Seq<u8>, p: int, n: nat, acc: Seq<Seq<char>>)
    requires
        0 <= p <= b.len(),
        dec_strs_n(b, p, n, acc) is Some,
    ensures
        p <= (dec_strs_n(b, p, n, acc)->0).1 <= b.len(),
        (dec_strs_n(b, p, n, acc)->0).0.len() == acc.len() + n,
        (dec_strs_n(b, p, n, acc)->0).0.subrange(0, acc.len() as int) == acc,
        forall|i: int| acc.len() <= i < acc.len() + n ==> fits_str(#[trigger] (dec_strs_n(b, p, n, acc)->0).0[i]),
        b.subrange(p, (dec_strs_n(b, p, n, acc)->0).1) == strs_body(
            (dec_strs_n(b, p, n, acc)->0).0.subrange(acc.len() as int, (acc.len() + n) as int),
        ),
    decreases n,
{
    let (r, q) = dec_strs_n(b, p, n, acc)->0;
    if n == 0 {
        assert(r.subrange(0, acc.len() as int) =~= acc);
        assert(r.subrange(acc.len() as int, (acc.len() + n) as int) =~= Seq::<Seq<char>>::empty());
        assert(b.subrange(p, q) =~= Seq::<u8>::empty());
    } else {
        let (s, q0) = dec_str(b, p)->0;
        lemma_back_str(b, p);
        lemma_back_strs_n(b, q0, (n - 1) as nat, acc.push(s));
        lemma_join(b, p, q0, q);
        let tail = r.subrange(acc.len() as int, (acc.len() + n) as int);
        assert(r.subrange(0, acc.len() as int + 1) == acc.push(s));
        assert(r.subrange(0, acc.len() as int + 1)[acc.len() as int] == r[acc.len() as int]);
        assert(tail[0] == s);
        assert(tail.subrange(1, tail.len() as int) =~= r.subrange(acc.len() as int + 1, acc.len() + 1 + (n - 1) as int));
        assert(r.subrange(0, acc.len() as int) =~= r.subrange(0, acc.len() as int + 1).subrange(0, acc.len() as int));
    }
}

proof fn lemma_back_strs(b: Seq<u8>, p: int)
    requires
        dec_strs(b, p) is Some,
    ensures
        p < (dec_strs(b, p)->0).1 <= b.len(),
        fits_strs((dec_strs(b, p)->0).0),
        enc_strs((dec_strs(b, p)->0).0) == b.subrange(p, (dec_strs(b, p)->0).1),
{
    let n = u64_of(b, p);
    lemma_back_u64(b, p);
    lemma_back_strs_n(b, p + 8, n as nat, Seq::empty());
    let (r, q) = dec_strs(b, p)->0;
    assert(r.subrange(0, n as int) =~= r);
    lemma_join(b, p, p + 8, q);
    assert forall|i: int| 0 <= i < r.len() implies fits_str(#[trigger] r[i]) by {}
}


proof fn lemma_read_op(b: Seq<u8>, p: int, op: OpV)
    requires
        fits_op(op),
        0 <= p,
        p + enc_op(op).len() <= b.len(),
        b.subrange(p, p + enc_op(op).len()) == enc_op(op),
    ensures
        enc_op(op).len() >= 4,
        dec_op(b, p) == Some((op, p + enc_op(op).len())),
    decreases op, 1int,
{
    match op {
        OpV::PushStr(..) => lemma_read_push_str(b, p, op),
        OpV::PushInt(..) => lemma_read_push_int(b, p, op),
        OpV::PushFloat(..) => lemma_read_push_float(b, p, op),
        OpV::StoreLocal(..) => lemma_read_store_local(b, p, op),
        OpV::LoadLocal(..) => lemma_read_load_local(b, p, op),
        OpV::CtxAlloc(..) => lemma_read_ctx_alloc(b, p, op),
        OpV::CtxFreeStack => lemma_read_ctx_free_stack(b, p, op),
        OpV::CtxAppendStack => lemma_read_ctx_append_stack(b, p, op),
        OpV::CtxCompress => lemma_read_ctx_compress(b, p, op),
        OpV::CtxResize(..) => lemma_read_ctx_resize(b, p, op),
        OpV::Return => lemma_read_return(b, p, op),
        OpV::Halt => lemma_read_halt(b, p, op),
        OpV::Jump(..) => lemma_read_jump(b, p, op),
        OpV::JumpIfFalse(..) => lemma_read_jump_if_false(b, p, op),
        OpV::CallKernel(..) => lemma_read_call_kernel(b, p, op),
        OpV::Println => lemma_read_println(b, p, op),
        OpV::BranchClassify { .. } => lemma_read_branch_classify(b, p, op),
        OpV::InferClassify(..) => lemma_read_infer_classify(b, p, op),
        OpV::Observe => lemma_read_observe(b, p, op),
        OpV::Reason(..) => lemma_read_reason(b, p, op),
        OpV::Act => lemma_read_act(b, p, op),
        OpV::VerifyStep => lemma_read_verify_step(b, p, op),
        OpV::BeginInterruptible => lemma_read_begin_interruptible(b, p, op),
        OpV::EndInterruptible => lemma_read_end_interruptible(b, p, op),
        OpV::CmpEq => lemma_read_cmp_eq(b, p, op),
        OpV::CmpNotEq => lemma_read_cmp_not_eq(b, p, op),
        OpV::CmpGt => lemma_read_cmp_gt(b, p, op),
        OpV::CmpLt => lemma_read_cmp_lt(b, p, op),
        OpV::Add => lemma_read_add(b, p, op),
        OpV::Sub => lemma_read_sub(b, p, op),
        OpV::Mul => lemma_read_mul(b, p, op),
        OpV::Div => lemma_read_div(b, p, op),
        OpV::Mod => lemma_read_mod(b, p, op),
        OpV::And => lemma_read_and(b, p, op),
        OpV::Or => lemma_read_or(b, p, op),
        OpV::PushBool(..) => lemma_read_push_bool(b, p, op),
        OpV::TuplePack(..) => lemma_read_tuple_pack(b, p, op),
        OpV::VecNew(..) => lemma_read_vec_new(b, p, op),
        OpV::VecGet => lemma_read_vec_get(b, p, op),
        OpV::VecSet => lemma_read_vec_set(b, p, op),
        OpV::VecLen => lemma_read_vec_len(b, p, op),
        OpV::VecPush => lemma_read_vec_push(b, p, op),
        OpV::FieldAccess(..) => lemma_read_field_access(b, p, op),
        OpV::StructConstruct { .. } => lemma_read_struct_construct(b, p, op),
        OpV::EnumVariant { .. } => lemma_read_enum_variant(b, p, op),
        OpV::SetAgentMeta(..) => lemma_read_set_agent_meta(b, p, op),
        OpV::CtxAppendLiteral(..) => lemma_read_ctx_append_literal(b, p, op),
        OpV::RegisterSkill(..) => lemma_read_register_skill(b, p, op),
        OpV::AllocMemorySlot(..) => lemma_read_alloc_memory_slot(b, p, op),
        OpV::LoadMemory(..) => lemma_read_load_memory(b, p, op),
        OpV::StoreMemory(..) => lemma_read_store_memory(b, p, op),
        OpV::CallOracle(..) => lemma_read_call_oracle(b, p, op),
        OpV::BeginConstraint(..) => lemma_read_begin_constraint(b, p, op),
        OpV::EndConstraint => lemma_read_end_constraint(b, p, op),
        OpV::ConstraintVerify => lemma_read_constraint_verify(b, p, op),
        OpV::PersistLoad => lemma_read_persist_load(b, p, op),
        OpV::PersistSave => lemma_read_persist_save(b, p, op),
        OpV::PersistDelete => lemma_read_persist_delete(b, p, op),
        OpV::StoreLore(..) => lemma_read_store_lore(b, p, op),
        OpV::LoadLore(..) => lemma_read_load_lore(b, p, op),
        OpV::CtxShare => lemma_read_ctx_share(b, p, op),
    }
}

proof fn lemma_read_push_str(b: Seq<u8>, p: int, op: OpV)
    requires
        op is PushStr,
        fits_op(op),
        0 <= p,
        p + enc_op(op).len() <= b.len(),
        b.subrange(p, p + enc_op(op).len()) == enc_op(op),
    ensures
        enc_op(op).len() >= 4,
        dec_op(b, p) == Some((op, p + enc_op(op).len())),
{
    match op {
        OpV::PushStr(f_s) => {
            let e_tag = enc_u32(0u32);
            let e_s = enc_str(f_s);
            lemma_split(b, p, e_tag, e_s);
            lemma_read_u32(b, p, 0u32);
            lemma_read_str(b, p + 4, f_s);
        },
        _ => {},
    }
}

proof fn lemma_read_push_int(b: Seq<u8>, p: int, op: OpV)
    requires
        op is PushInt,
        fits_op(op),
        0 <= p,
        p + enc_op(op).len() <= b.len(),
        b.subrange(p, p + enc_op(op).len()) == enc_op(op),
    ensures
        enc_op(op).len() >= 4,
        dec_op(b, p) == Some((op, p + enc_op(op).len())),
{
    match op {
        OpV::PushInt(f_n) => {
            let e_tag = enc_u32(1u32);
            let e_n = enc_u64(f_n);
            lemma_split(b, p, e_tag, e_n);
            lemma_read_u32(b, p, 1u32);
            lemma_read_u64(b, p + 4, f_n);
        },
        _ => {},
    }
}

proof fn lemma_read_push_float(b: Seq<u8>, p: int, op: OpV)
    requires
        op is PushFloat,
        fits_op(op),
        0 <= p,
        p + enc_op(op).len() <= b.len(),
        b.subrange(p, p + enc_op(op).len()) == enc_op(op),
    ensures
        enc_op(op).len() >= 4,
        dec_op(b, p) == Some((op, p + enc_op(op).len())),
{
    match op {
        OpV::PushFloat(f_s) => {
            let e_tag = enc_u32(2u32);
            let e_s = enc_str(f_s);
            lemma_split(b, p, e_tag, e_s);
            lemma_read_u32(b, p, 2u32);
            lemma_read_str(b, p + 4, f_s);
        },
        _ => {},
    }
}

proof fn lemma_read_store_local(b: Seq<u8>, p: int, op: OpV)
    requires
        op is StoreLocal,
        fits_op(op),
        0 <= p,
        p + enc_op(op).len() <= b.len(),
        b.subrange(p, p + enc_op(op).len()) == enc_op(op),
    ensures
        enc_op(op).len() >= 4,
        dec_op(b, p) == Some((op, p + enc_op(op).len())),
{
    match op {
        OpV::StoreLocal(f_s) => {
            let e_tag = enc_u32(3u32);
            let e_s = enc_str(f_s);
            lemma_split(b, p, e_tag, e_s);
            lemma_read_u32(b, p, 3u32);
            lemma_read_str(b, p + 4, f_s);
        },
        _ => {},
    }
}

proof fn lemma_read_load_local(b: Seq<u8>, p: int, op: OpV)
    requires
        op is LoadLocal,
        fits_op(op),
        0 <= p,
        p + enc_op(op).len() <= b.len(),
        b.subrange(p, p + enc_op(op).len()) == enc_op(op),
    ensures
        enc_op(op).len() >= 4,
        dec_op(b, p) == Some((op, p + enc_op(op).len())),
{
    match op {
        OpV::LoadLocal(f_s) => {
            let e_tag = enc_u32(4u32);
            let e_s = enc_str(f_s);
            lemma_split(b, p, e_tag, e_s);
            lemma_read_u32(b, p, 4u32);
            lemma_read_str(b, p + 4, f_s);
        },
        _ => {},
    }
}

proof fn lemma_read_ctx_alloc(b: Seq<u8>, p: int, op: OpV)
    requires
        op is CtxAlloc,
        fits_op(op),
        0 <= p,
        p + enc_op(op).len() <= b.len(),
        b.subrange(p, p + enc_op(op).len()) == enc_op(op),
    ensures
        enc_op(op).len() >= 4,
        dec_op(b, p) == Some((op, p + enc_op(op).len())),
{
    match op {
        OpV::CtxAlloc(f_n) => {
            let e_tag = enc_u32(5u32);
            let e_n = enc_u32(f_n);
            lemma_split(b, p, e_tag, e_n);
            lemma_read_u32(b, p, 5u32);
            lemma_read_u32(b, p + 4, f_n);
        },
        _ => {},
    }
}

proof fn lemma_read_ctx_free_stack(b: Seq<u8>, p: int, op: OpV)
    requires
        op is CtxFreeStack,
        fits_op(op),
        0 <= p,
        p + enc_op(op).len() <= b.len(),
        b.subrange(p, p + enc_op(op).len()) == enc_op(op),
    ensures
        enc_op(op).len() >= 4,
        dec_op(b, p) == Some((op, p + enc_op(op).len())),
{
    match op {
        OpV::CtxFreeStack => {
            lemma_read_u32(b, p, 6u32);
        },
        _ => {},
    }
}

proof fn lemma_read_ctx_append_stack(b: Seq<u8>, p: int, op: OpV)
    requires
        op is CtxAppendStack,
        fits_op(op),
        0 <= p,
        p + enc_op(op).len() <= b.len(),
        b.subrange(p, p + enc_op(op).len()) == enc_op(op),
    ensures
        enc_op(op).len() >= 4,
        dec_op(b, p) == Some((op, p + enc_op(op).len())),
{
    match op {
        OpV::CtxAppendStack => {
            lemma_read_u32(b, p, 7u32);
        },
        _ => {},
    }
}

proof fn lemma_read_ctx_compress(b: Seq<u8>, p: int, op: OpV)
    requires
        op is CtxCompress,
        fits_op(op),
        0 <= p,
        p + enc_op(op).len() <= b.len(),
        b.subrange(p, p + enc_op(op).len()) == enc_op(op),
    ensures
        enc_op(op).len() >= 4,
        dec_op(b, p) == Some((op, p + enc_op(op).len())),
{
    match op {
        OpV::CtxCompress => {
            lemma_read_u32(b, p, 8u32);
        },
        _ => {},
    }
}

proof fn lemma_read_ctx_resize(b: Seq<u8>, p: int, op: OpV)
    requires
        op is CtxResize,
        fits_op(op),
        0 <= p,
        p + enc_op(op).len() <= b.len(),
        b.subrange(p, p + enc_op(op).len()) == enc_op(op),
    ensures
        enc_op(op).len() >= 4,
        dec_op(b, p) == Some((op, p + enc_op(op).len())),
{
    match op {
        OpV::CtxResize(f_r, f_n) => {
            let e_tag = enc_u32(9u32);
            let e_r = enc_u8(f_r);
            let e_n = enc_u32(f_n);
            lemma_split(b, p, e_tag + e_r, e_n);
            lemma_split(b, p, e_tag, e_r);
            lemma_read_u32(b, p, 9u32);
            lemma_read_u8(b, p + 4, f_r);
            lemma_read_u32(b, p + 4 + e_r.len(), f_n);
        },
        _ => {},
    }
}

proof fn lemma_read_return(b: Seq<u8>, p: int, op: OpV)
    requires
        op is Return,
        fits_op(op),
        0 <= p,
        p + enc_op(op).len() <= b.len(),
        b.subrange(p, p + enc_op(op).len()) == enc_op(op),
    ensures
        enc_op(op).len() >= 4,
        dec_op(b, p) == Some((op, p + enc_op(op).len())),
{
    match op {
        OpV::Return => {
            lemma_read_u32(b, p, 10u32);
        },
        _ => {},
    }
}

proof fn lemma_read_halt(b: Seq<u8>, p: int, op: OpV)
    requires
        op is Halt,
        fits_op(op),
        0 <= p,
        p + enc_op(op).len() <= b.len(),
        b.subrange(p, p + enc_op(op).len()) == enc_op(op),
    ensures
        enc_op(op).len() >= 4,
        dec_op(b, p) == Some((op, p + enc_op(op).len())),
{
    match op {
        OpV::Halt => {
            lemma_read_u32(b, p, 11u32);
        },
        _ => {},
    }
}

proof fn lemma_read_jump(b: Seq<u8>, p: int, op: OpV)
    requires
        op is Jump,
        fits_op(op),
        0 <= p,
        p + enc_op(op).len() <= b.len(),
        b.subrange(p, p + enc_op(op).len()) == enc_op(op),
    ensures
        enc_op(op).len() >= 4,
        dec_op(b, p) == Some((op, p + enc_op(op).len())),
{
    match op {
        OpV::Jump(f_t) => {
            let e_tag = enc_u32(12u32);
            let e_t = enc_usize(f_t);
            lemma_split(b, p, e_tag, e_t);
            lemma_read_u32(b, p, 12u32);
            lemma_read_usize(b, p + 4, f_t);
        },
        _ => {},
    }
}

proof fn lemma_read_jump_if_false(b: Seq<u8>, p: int, op: OpV)
    requires
        op is JumpIfFalse,
        fits_op(op),
        0 <= p,
        p + enc_op(op).len() <= b.len(),
        b.subrange(p, p + enc_op(op).len()) == enc_op(op),
    ensures
        enc_op(op).len() >= 4,
        dec_op(b, p) == Some((op, p + enc_op(op).len())),
{
    match op {
        OpV::JumpIfFalse(f_t) => {
            let e_tag = enc_u32(13u32);
            let e_t = enc_usize(f_t);
            lemma_split(b, p, e_tag, e_t);
            lemma_read_u32(b, p, 13u32);
            lemma_read_usize(b, p + 4, f_t);
        },
        _ => {},
    }
}

proof fn lemma_read_call_kernel(b: Seq<u8>, p: int, op: OpV)
    requires
        op is CallKernel,
        fits_op(op),
        0 <= p,
        p + enc_op(op).len() <= b.len(),
        b.subrange(p, p + enc_op(op).len()) == enc_op(op),
    ensures
        enc_op(op).len() >= 4,
        dec_op(b, p) == Some((op, p + enc_op(op).len())),
{
    match op {
        OpV::CallKernel(f_k) => {
            let e_tag = enc_u32(14u32);
            let e_k = enc_u16(f_k);
            lemma_split(b, p, e_tag, e_k);
            lemma_read_u32(b, p, 14u32);
            lemma_read_u16(b, p + 4, f_k);
        },
        _ => {},
    }
}

proof fn lemma_read_println(b: Seq<u8>, p: int, op: OpV)
    requires
        op is Println,
        fits_op(op),
        0 <= p,
        p + enc_op(op).len() <= b.len(),
        b.subrange(p, p + enc_op(op).len()) == enc_op(op),
    ensures
        enc_op(op).len() >= 4,
        dec_op(b, p) == Some((op, p + enc_op(op).len())),
{
    match op {
        OpV::Println => {
            lemma_read_u32(b, p, 15u32);
        },
        _ => {},
    }
}

#[verifier::rlimit(60)]
#[verifier::spinoff_prover]
proof fn lemma_read_branch_classify(b: Seq<u8>, p: int, op: OpV)
    requires
        op is BranchClassify,
        fits_op(op),
        0 <= p,
        p + enc_op(op).len() <= b.len(),
        b.subrange(p, p + enc_op(op).len()) == enc_op(op),
    ensures
        enc_op(op).len() >= 4,
        dec_op(b, p) == Some((op, p + enc_op(op).len())),
    decreases op, 0int,
{
    match op {
        OpV::BranchClassify { var: f_var, cases: f_cases, default: f_default } => {
            let e_tag = enc_u32(16u32);
            let e_var = enc_str(f_var);
            let e_cases = enc_arms(f_cases);
            let e_default = enc_ops(f_default);
            lemma_split(b, p, e_tag + e_var + e_cases, e_default);
            lemma_split(b, p, e_tag + e_var, e_cases);
            lemma_split(b, p, e_tag, e_var);
            lemma_read_u32(b, p, 16u32);
            lemma_read_str(b, p + 4, f_var);
            lemma_read_arms(b, p + 4 + e_var.len(), f_cases);
            lemma_read_ops(b, p + 4 + e_var.len() + e_cases.len(), f_default);
        },
        _ => {},
    }
}

proof fn lemma_read_infer_classify(b: Seq<u8>, p: int, op: OpV)
    requires
        op is InferClassify,
        fits_op(op),
        0 <= p,
        p + enc_op(op).len() <= b.len(),
        b.subrange(p, p + enc_op(op).len()) == enc_op(op),
    ensures
        enc_op(op).len() >= 4,
        dec_op(b, p) == Some((op, p + enc_op(op).len())),
{
    match op {
        OpV::InferClassify(f_labels) => {
            let e_tag = enc_u32(17u32);
            let e_labels = enc_strs(f_labels);
            lemma_split(b, p, e_tag, e_labels);
            lemma_read_u32(b, p, 17u32);
            lemma_read_strs(b, p + 4, f_labels);
        },
        _ => {},
    }
}

proof fn lemma_read_observe(b: Seq<u8>, p: int, op: OpV)
    requires
        op is Observe,
        fits_op(op),
        0 <= p,
        p + enc_op(op).len() <= b.len(),
        b.subrange(p, p + enc_op(op).len()) == enc_op(op),
    ensures
        enc_op(op).len() >= 4,
        dec_op(b, p) == Some((op, p + enc_op(op).len())),
{
    match op {
        OpV::Observe => {
            lemma_read_u32(b, p, 18u32);
        },
        _ => {},
    }
}

proof fn lemma_read_reason(b: Seq<u8>, p: int, op: OpV)
    requires
        op is Reason,
        fits_op(op),
        0 <= p,
        p + enc_op(op).len() <= b.len(),
        b.subrange(p, p + enc_op(op).len()) == enc_op(op),
    ensures
        enc_op(op).len() >= 4,
        dec_op(b, p) == Some((op, p + enc_op(op).len())),
{
    match op {
        OpV::Reason(f_s) => {
            let e_tag = enc_u32(19u32);
            let e_s = enc_str(f_s);
            lemma_split(b, p, e_tag, e_s);
            lemma_read_u32(b, p, 19u32);
            lemma_read_str(b, p + 4, f_s);
        },
        _ => {},
    }
}

proof fn lemma_read_act(b: Seq<u8>, p: int, op: OpV)
    requires
        op is Act,
        fits_op(op),
        0 <= p,
        p + enc_op(op).len() <= b.len(),
        b.subrange(p, p + enc_op(op).len()) == enc_op(op),
    ensures
        enc_op(op).len() >= 4,
        dec_op(b, p) == Some((op, p + enc_op(op).len())),
{
    match op {
        OpV::Act => {
            lemma_read_u32(b, p, 20u32);
        },
        _ => {},
    }
}

proof fn lemma_read_verify_step(b: Seq<u8>, p: int, op: OpV)
    requires
        op is VerifyStep,
        fits_op(op),
        0 <= p,
        p + enc_op(op).len() <= b.len(),
        b.subrange(p, p + enc_op(op).len()) == enc_op(op),
    ensures
        enc_op(op).len() >= 4,
        dec_op(b, p) == Some((op, p + enc_op(op).len())),
{
    match op {
        OpV::VerifyStep => {
            lemma_read_u32(b, p, 21u32);
        },
        _ => {},
    }
}

proof fn lemma_read_begin_interruptible(b: Seq<u8>, p: int, op: OpV)
    requires
        op is BeginInterruptible,
        fits_op(op),
        0 <= p,
        p + enc_op(op).len() <= b.len(),
        b.subrange(p, p + enc_op(op).len()) == enc_op(op),
    ensures
        enc_op(op).len() >= 4,
        dec_op(b, p) == Some((op, p + enc_op(op).len())),
{
    match op {
        OpV::BeginInterruptible => {
            lemma_read_u32(b, p, 22u32);
        },
        _ => {},
    }
}

proof fn lemma_read_end_interruptible(b: Seq<u8>, p: int, op: OpV)
    requires
        op is EndInterruptible,
        fits_op(op),
        0 <= p,
        p + enc_op(op).len() <= b.len(),
        b.subrange(p, p + enc_op(op).len()) == enc_op(op),
    ensures
        enc_op(op).len() >= 4,
        dec_op(b, p) == Some((op, p + enc_op(op).len())),
{
    match op {
        OpV::EndInterruptible => {
            lemma_read_u32(b, p, 23u32);
        },
        _ => {},
    }
}

proof fn lemma_read_cmp_eq(b: Seq<u8>, p: int, op: OpV)
    requires
        op is CmpEq,
        fits_op(op),
        0 <= p,
        p + enc_op(op).len() <= b.len(),
        b.subrange(p, p + enc_op(op).len()) == enc_op(op),
    ensures
        enc_op(op).len() >= 4,
        dec_op(b, p) == Some((op, p + enc_op(op).len())),
{
    match op {
        OpV::CmpEq => {
            lemma_read_u32(b, p, 24u32);
        },
        _ => {},
    }
}

proof fn lemma_read_cmp_not_eq(b: Seq<u8>, p: int, op: OpV)
    requires
        op is CmpNotEq,
        fits_op(op),
        0 <= p,
        p + enc_op(op).len() <= b.len(),
        b.subrange(p, p + enc_op(op).len()) == enc_op(op),
    ensures
        enc_op(op).len() >= 4,
        dec_op(b, p) == Some((op, p + enc_op(op).len())),
{
    match op {
        OpV::CmpNotEq => {
            lemma_read_u32(b, p, 25u32);
        },
        _ => {},
    }
}

proof fn lemma_read_cmp_gt(b: Seq<u8>, p: int, op: OpV)
    requires
        op is CmpGt,
        fits_op(op),
        0 <= p,
        p + enc_op(op).len() <= b.len(),
        b.subrange(p, p + enc_op(op).len()) == enc_op(op),
    ensures
        enc_op(op).len() >= 4,
        dec_op(b, p) == Some((op, p + enc_op(op).len())),
{
    match op {
        OpV::CmpGt => {
            lemma_read_u32(b, p, 26u32);
        },
        _ => {},
    }
}

proof fn lemma_read_cmp_lt(b: Seq<u8>, p: int, op: OpV)
    requires
        op is CmpLt,
        fits_op(op),
        0 <= p,
        p + enc_op(op).len() <= b.len(),
        b.subrange(p, p + enc_op(op).len()) == enc_op(op),
    ensures
        enc_op(op).len() >= 4,
        dec_op(b, p) == Some((op, p + enc_op(op).len())),
{
    match op {
        OpV::CmpLt => {
            lemma_read_u32(b, p, 27u32);
        },
        _ => {},
    }
}

proof fn lemma_read_add(b: Seq<u8>, p: int, op: OpV)
    requires
        op is Add,
        fits_op(op),
        0 <= p,
        p + enc_op(op).len() <= b.len(),
        b.subrange(p, p + enc_op(op).len()) == enc_op(op),
    ensures
        enc_op(op).len() >= 4,
        dec_op(b, p) == Some((op, p + enc_op(op).len())),
{
    match op {
        OpV::Add => {
            lemma_read_u32(b, p, 28u32);
        },
        _ => {},
    }
}

proof fn lemma_read_sub(b: Seq<u8>, p: int, op: OpV)
    requires
        op is Sub,
        fits_op(op),
        0 <= p,
        p + enc_op(op).len() <= b.len(),
        b.subrange(p, p + enc_op(op).len()) == enc_op(op),
    ensures
        enc_op(op).len() >= 4,
        dec_op(b, p) == Some((op, p + enc_op(op).len())),
{
    match op {
        OpV::Sub => {
            lemma_read_u32(b, p, 29u32);
        },
        _ => {},
    }
}

proof fn lemma_read_mul(b: Seq<u8>, p: int, op: OpV)
    requires
        op is Mul,
        fits_op(op),
        0 <= p,
        p + enc_op(op).len() <= b.len(),
        b.subrange(p, p + enc_op(op).len()) == enc_op(op),
    ensures
        enc_op(op).len() >= 4,
        dec_op(b, p) == Some((op, p + enc_op(op).len())),
{
    match op {
        OpV::Mul => {
            lemma_read_u32(b, p, 30u32);
        },
        _ => {},
    }
}

proof fn lemma_read_div(b: Seq<u8>, p: int, op: OpV)
    requires
        op is Div,
        fits_op(op),
        0 <= p,
        p + enc_op(op).len() <= b.len(),
        b.subrange(p, p + enc_op(op).len()) == enc_op(op),
    ensures
        enc_op(op).len() >= 4,
        dec_op(b, p) == Some((op, p + enc_op(op).len())),
{
    match op {
        OpV::Div => {
            lemma_read_u32(b, p, 31u32);
        },
        _ => {},
    }
}

proof fn lemma_read_mod(b: Seq<u8>, p: int, op: OpV)
    requires
        op is Mod,
        fits_op(op),
        0 <= p,
        p + enc_op(op).len() <= b.len(),
        b.subrange(p, p + enc_op(op).len()) == enc_op(op),
    ensures
        enc_op(op).len() >= 4,
        dec_op(b, p) == Some((op, p + enc_op(op).len())),
{
    match op {
        OpV::Mod => {
            lemma_read_u32(b, p, 32u32);
        },
        _ => {},
    }
}

proof fn lemma_read_and(b: Seq<u8>, p: int, op: OpV)
    requires
        op is And,
        fits_op(op),
        0 <= p,
        p + enc_op(op).len() <= b.len(),
        b.subrange(p, p + enc_op(op).len()) == enc_op(op),
    ensures
        enc_op(op).len() >= 4,
        dec_op(b, p) == Some((op, p + enc_op(op).len())),
{
    match op {
        OpV::And => {
            lemma_read_u32(b, p, 33u32);
        },
        _ => {},
    }
}

proof fn lemma_read_or(b: Seq<u8>, p: int, op: OpV)
    requires
        op is Or,
        fits_op(op),
        0 <= p,
        p + enc_op(op).len() <= b.len(),
        b.subrange(p, p + enc_op(op).len()) == enc_op(op),
    ensures
        enc_op(op).len() >= 4,
        dec_op(b, p) == Some((op, p + enc_op(op).len())),
{
    match op {
        OpV::Or => {
            lemma_read_u32(b, p, 34u32);
        },
        _ => {},
    }
}

proof fn lemma_read_push_bool(b: Seq<u8>, p: int, op: OpV)
    requires
        op is PushBool,
        fits_op(op),
        0 <= p,
        p + enc_op(op).len() <= b.len(),
        b.subrange(p, p + enc_op(op).len()) == enc_op(op),
    ensures
        enc_op(op).len() >= 4,
        dec_op(b, p) == Some((op, p + enc_op(op).len())),
{
    match op {
        OpV::PushBool(f_b) => {
            let e_tag = enc_u32(35u32);
            let e_b = enc_bool(f_b);
            lemma_split(b, p, e_tag, e_b);
            lemma_read_u32(b, p, 35u32);
            lemma_read_bool(b, p + 4, f_b);
        },
        _ => {},
    }
}

proof fn lemma_read_tuple_pack(b: Seq<u8>, p: int, op: OpV)
    requires
        op is TuplePack,
        fits_op(op),
        0 <= p,
        p + enc_op(op).len() <= b.len(),
        b.subrange(p, p + enc_op(op).len()) == enc_op(op),
    ensures
        enc_op(op).len() >= 4,
        dec_op(b, p) == Some((op, p + enc_op(op).len())),
{
    match op {
        OpV::TuplePack(f_n) => {
            let e_tag = enc_u32(36u32);
            let e_n = enc_u8(f_n);
            lemma_split(b, p, e_tag, e_n);
            lemma_read_u32(b, p, 36u32);
            lemma_read_u8(b, p + 4, f_n);
        },
        _ => {},
    }
}

proof fn lemma_read_vec_new(b: Seq<u8>, p: int, op: OpV)
    requires
        op is VecNew,
        fits_op(op),
        0 <= p,
        p + enc_op(op).len() <= b.len(),
        b.subrange(p, p + enc_op(op).len()) == enc_op(op),
    ensures
        enc_op(op).len() >= 4,
        dec_op(b, p) == Some((op, p + enc_op(op).len())),
{
    match op {
        OpV::VecNew(f_n) => {
            let e_tag = enc_u32(37u32);
            let e_n = enc_u8(f_n);
            lemma_split(b, p, e_tag, e_n);
            lemma_read_u32(b, p, 37u32);
            lemma_read_u8(b, p + 4, f_n);
        },
        _ => {},
    }
}

proof fn lemma_read_vec_get(b: Seq<u8>, p: int, op: OpV)
    requires
        op is VecGet,
        fits_op(op),
        0 <= p,
        p + enc_op(op).len() <= b.len(),
        b.subrange(p, p + enc_op(op).len()) == enc_op(op),
    ensures
        enc_op(op).len() >= 4,
        dec_op(b, p) == Some((op, p + enc_op(op).len())),
{
    match op {
        OpV::VecGet => {
            lemma_read_u32(b, p, 38u32);
        },
        _ => {},
    }
}

proof fn lemma_read_vec_set(b: Seq<u8>, p: int, op: OpV)
    requires
        op is VecSet,
        fits_op(op),
        0 <= p,
        p + enc_op(op).len() <= b.len(),
        b.subrange(p, p + enc_op(op).len()) == enc_op(op),
    ensures
        enc_op(op).len() >= 4,
        dec_op(b, p) == Some((op, p + enc_op(op).len())),
{
    match op {
        OpV::VecSet => {
            lemma_read_u32(b, p, 39u32);
        },
        _ => {},
    }
}

proof fn lemma_read_vec_len(b: Seq<u8>, p: int, op: OpV)
    requires
        op is VecLen,
        fits_op(op),
        0 <= p,
        p + enc_op(op).len() <= b.len(),
        b.subrange(p, p + enc_op(op).len()) == enc_op(op),
    ensures
        enc_op(op).len() >= 4,
        dec_op(b, p) == Some((op, p + enc_op(op).len())),
{
    match op {
        OpV::VecLen => {
            lemma_read_u32(b, p, 40u32);
        },
        _ => {},
    }
}

proof fn lemma_read_vec_push(b: Seq<u8>, p: int, op: OpV)
    requires
        op is VecPush,
        fits_op(op),
        0 <= p,
        p + enc_op(op).len() <= b.len(),
        b.subrange(p, p + enc_op(op).len()) == enc_op(op),
    ensures
        enc_op(op).len() >= 4,
        dec_op(b, p) == Some((op, p + enc_op(op).len())),
{
    match op {
        OpV::VecPush => {
            lemma_read_u32(b, p, 41u32);
        },
        _ => {},
    }
}

proof fn lemma_read_field_access(b: Seq<u8>, p: int, op: OpV)
    requires
        op is FieldAccess,
        fits_op(op),
        0 <= p,
        p + enc_op(op).len() <= b.len(),
        b.subrange(p, p + enc_op(op).len()) == enc_op(op),
    ensures
        enc_op(op).len() >= 4,
        dec_op(b, p) == Some((op, p + enc_op(op).len())),
{
    match op {
        OpV::FieldAccess(f_s) => {
            let e_tag = enc_u32(42u32);
            let e_s = enc_str(f_s);
            lemma_split(b, p, e_tag, e_s);
            lemma_read_u32(b, p, 42u32);
            lemma_read_str(b, p + 4, f_s);
        },
        _ => {},
    }
}

proof fn lemma_read_struct_construct(b: Seq<u8>, p: int, op: OpV)
    requires
        op is StructConstruct,
        fits_op(op),
        0 <= p,
        p + enc_op(op).len() <= b.len(),
        b.subrange(p, p + enc_op(op).len()) == enc_op(op),
    ensures
        enc_op(op).len() >= 4,
        dec_op(b, p) == Some((op, p + enc_op(op).len())),
{
    match op {
        OpV::StructConstruct { name: f_name, field_names: f_field_names } => {
            let e_tag = enc_u32(43u32);
            let e_name = enc_str(f_name);
            let e_field_names = enc_strs(f_field_names);
            lemma_split(b, p, e_tag + e_name, e_field_names);
            lemma_split(b, p, e_tag, e_name);
            lemma_read_u32(b, p, 43u32);
            lemma_read_str(b, p + 4, f_name);
            lemma_read_strs(b, p + 4 + e_name.len(), f_field_names);
        },
        _ => {},
    }
}

proof fn lemma_read_enum_variant(b: Seq<u8>, p: int, op: OpV)
    requires
        op is EnumVariant,
        fits_op(op),
        0 <= p,
        p + enc_op(op).len() <= b.len(),
        b.subrange(p, p + enc_op(op).len()) == enc_op(op),
    ensures
        enc_op(op).len() >= 4,
        dec_op(b, p) == Some((op, p + enc_op(op).len())),
{
    match op {
        OpV::EnumVariant { variant: f_variant, payload: f_payload } => {
            let e_tag = enc_u32(44u32);
            let e_variant = enc_str(f_variant);
            let e_payload = enc_bool(f_payload);
            lemma_split(b, p, e_tag + e_variant, e_payload);
            lemma_split(b, p, e_tag, e_variant);
            lemma_read_u32(b, p, 44u32);
            lemma_read_str(b, p + 4, f_variant);
            lemma_read_bool(b, p + 4 + e_variant.len(), f_payload);
        },
        _ => {},
    }
}

proof fn lemma_read_set_agent_meta(b: Seq<u8>, p: int, op: OpV)
    requires
        op is SetAgentMeta,
        fits_op(op),
        0 <= p,
        p + enc_op(op).len() <= b.len(),
        b.subrange(p, p + enc_op(op).len()) == enc_op(op),
    ensures
        enc_op(op).len() >= 4,
        dec_op(b, p) == Some((op, p + enc_op(op).len())),
{
    match op {
        OpV::SetAgentMeta(f_s) => {
            let e_tag = enc_u32(45u32);
            let e_s = enc_str(f_s);
            lemma_split(b, p, e_tag, e_s);
            lemma_read_u32(b, p, 45u32);
            lemma_read_str(b, p + 4, f_s);
        },
        _ => {},
    }
}

proof fn lemma_read_ctx_append_literal(b: Seq<u8>, p: int, op: OpV)
    requires
        op is CtxAppendLiteral,
        fits_op(op),
        0 <= p,
        p + enc_op(op).len() <= b.len(),
        b.subrange(p, p + enc_op(op).len()) == enc_op(op),
    ensures
        enc_op(op).len() >= 4,
        dec_op(b, p) == Some((op, p + enc_op(op).len())),
{
    match op {
        OpV::CtxAppendLiteral(f_s) => {
            let e_tag = enc_u32(46u32);
            let e_s = enc_str(f_s);
            lemma_split(b, p, e_tag, e_s);
            lemma_read_u32(b, p, 46u32);
            lemma_read_str(b, p + 4, f_s);
        },
        _ => {},
    }
}

proof fn lemma_read_register_skill(b: Seq<u8>, p: int, op: OpV)
    requires
        op is RegisterSkill,
        fits_op(op),
        0 <= p,
        p + enc_op(op).len() <= b.len(),
        b.subrange(p, p + enc_op(op).len()) == enc_op(op),
    ensures
        enc_op(op).len() >= 4,
        dec_op(b, p) == Some((op, p + enc_op(op).len())),
{
    match op {
        OpV::RegisterSkill(f_s) => {
            let e_tag = enc_u32(47u32);
            let e_s = enc_str(f_s);
            lemma_split(b, p, e_tag, e_s);
            lemma_read_u32(b, p, 47u32);
            lemma_read_str(b, p + 4, f_s);
        },
        _ => {},
    }
}

proof fn lemma_read_alloc_memory_slot(b: Seq<u8>, p: int, op: OpV)
    requires
        op is AllocMemorySlot,
        fits_op(op),
        0 <= p,
        p + enc_op(op).len() <= b.len(),
        b.subrange(p, p + enc_op(op).len()) == enc_op(op),
    ensures
        enc_op(op).len() >= 4,
        dec_op(b, p) == Some((op, p + enc_op(op).len())),
{
    match op {
        OpV::AllocMemorySlot(f_s) => {
            let e_tag = enc_u32(48u32);
            let e_s = enc_str(f_s);
            lemma_split(b, p, e_tag, e_s);
            lemma_read_u32(b, p, 48u32);
            lemma_read_str(b, p + 4, f_s);
        },
        _ => {},
    }
}

proof fn lemma_read_load_memory(b: Seq<u8>, p: int, op: OpV)
    requires
        op is LoadMemory,
        fits_op(op),
        0 <= p,
        p + enc_op(op).len() <= b.len(),
        b.subrange(p, p + enc_op(op).len()) == enc_op(op),
    ensures
        enc_op(op).len() >= 4,
        dec_op(b, p) == Some((op, p + enc_op(op).len())),
{
    match op {
        OpV::LoadMemory(f_s) => {
            let e_tag = enc_u32(49u32);
            let e_s = enc_str(f_s);
            lemma_split(b, p, e_tag, e_s);
            lemma_read_u32(b, p, 49u32);
            lemma_read_str(b, p + 4, f_s);
        },
        _ => {},
    }
}

proof fn lemma_read_store_memory(b: Seq<u8>, p: int, op: OpV)
    requires
        op is StoreMemory,
        fits_op(op),
        0 <= p,
        p + enc_op(op).len() <= b.len(),
        b.subrange(p, p + enc_op(op).len()) == enc_op(op),
    ensures
        enc_op(op).len() >= 4,
        dec_op(b, p) == Some((op, p + enc_op(op).len())),
{
    match op {
        OpV::StoreMemory(f_s) => {
            let e_tag = enc_u32(50u32);
            let e_s = enc_str(f_s);
            lemma_split(b, p, e_tag, e_s);
            lemma_read_u32(b, p, 50u32);
            lemma_read_str(b, p + 4, f_s);
        },
        _ => {},
    }
}

proof fn lemma_read_call_oracle(b: Seq<u8>, p: int, op: OpV)
    requires
        op is CallOracle,
        fits_op(op),
        0 <= p,
        p + enc_op(op).len() <= b.len(),
        b.subrange(p, p + enc_op(op).len()) == enc_op(op),
    ensures
        enc_op(op).len() >= 4,
        dec_op(b, p) == Some((op, p + enc_op(op).len())),
{
    match op {
        OpV::CallOracle(f_s, f_n) => {
            let e_tag = enc_u32(51u32);
            let e_s = enc_str(f_s);
            let e_n = enc_u8(f_n);
            lemma_split(b, p, e_tag + e_s, e_n);
            lemma_split(b, p, e_tag, e_s);
            lemma_read_u32(b, p, 51u32);
            lemma_read_str(b, p + 4, f_s);
            lemma_read_u8(b, p + 4 + e_s.len(), f_n);
        },
        _ => {},
    }
}

proof fn lemma_read_begin_constraint(b: Seq<u8>, p: int, op: OpV)
    requires
        op is BeginConstraint,
        fits_op(op),
        0 <= p,
        p + enc_op(op).len() <= b.len(),
        b.subrange(p, p + enc_op(op).len()) == enc_op(op),
    ensures
        enc_op(op).len() >= 4,
        dec_op(b, p) == Some((op, p + enc_op(op).len())),
{
    match op {
        OpV::BeginConstraint(f_s) => {
            let e_tag = enc_u32(52u32);
            let e_s = enc_str(f_s);
            lemma_split(b, p, e_tag, e_s);
            lemma_read_u32(b, p, 52u32);
            lemma_read_str(b, p + 4, f_s);
        },
        _ => {},
    }
}

proof fn lemma_read_end_constraint(b: Seq<u8>, p: int, op: OpV)
    requires
        op is EndConstraint,
        fits_op(op),
        0 <= p,
        p + enc_op(op).len() <= b.len(),
        b.subrange(p, p + enc_op(op).len()) == enc_op(op),
    ensures
        enc_op(op).len() >= 4,
        dec_op(b, p) == Some((op, p + enc_op(op).len())),
{
    match op {
        OpV::EndConstraint => {
            lemma_read_u32(b, p, 53u32);
        },
        _ => {},
    }
}

proof fn lemma_read_constraint_verify(b: Seq<u8>, p: int, op: OpV)
    requires
        op is ConstraintVerify,
        fits_op(op),
        0 <= p,
        p + enc_op(op).len() <= b.len(),
        b.subrange(p, p + enc_op(op).len()) == enc_op(op),
    ensures
        enc_op(op).len() >= 4,
        dec_op(b, p) == Some((op, p + enc_op(op).len())),
{
    match op {
        OpV::ConstraintVerify => {
            lemma_read_u32(b, p, 54u32);
        },
        _ => {},
    }
}

proof fn lemma_read_persist_load(b: Seq<u8>, p: int, op: OpV)
    requires
        op is PersistLoad,
        fits_op(op),
        0 <= p,
        p + enc_op(op).len() <= b.len(),
        b.subrange(p, p + enc_op(op).len()) == enc_op(op),
    ensures
        enc_op(op).len() >= 4,
        dec_op(b, p) == Some((op, p + enc_op(op).len())),
{
    match op {
        OpV::PersistLoad => {
            lemma_read_u32(b, p, 55u32);
        },
        _ => {},
    }
}

proof fn lemma_read_persist_save(b: Seq<u8>, p: int, op: OpV)
    requires
        op is PersistSave,
        fits_op(op),
        0 <= p,
        p + enc_op(op).len() <= b.len(),
        b.subrange(p, p + enc_op(op).len()) == enc_op(op),
    ensures
        enc_op(op).len() >= 4,
        dec_op(b, p) == Some((op, p + enc_op(op).len())),
{
    match op {
        OpV::PersistSave => {
            lemma_read_u32(b, p, 56u32);
        },
        _ => {},
    }
}

proof fn lemma_read_persist_delete(b: Seq<u8>, p: int, op: OpV)
    requires
        op is PersistDelete,
        fits_op(op),
        0 <= p,
        p + enc_op(op).len() <= b.len(),
        b.subrange(p, p + enc_op(op).len()) == enc_op(op),
    ensures
        enc_op(op).len() >= 4,
        dec_op(b, p) == Some((op, p + enc_op(op).len())),
{
    match op {
        OpV::PersistDelete => {
            lemma_read_u32(b, p, 57u32);
        },
        _ => {},
    }
}

proof fn lemma_read_store_lore(b: Seq<u8>, p: int, op: OpV)
    requires
        op is StoreLore,
        fits_op(op),
        0 <= p,
        p + enc_op(op).len() <= b.len(),
        b.subrange(p, p + enc_op(op).len()) == enc_op(op),
    ensures
        enc_op(op).len() >= 4,
        dec_op(b, p) == Some((op, p + enc_op(op).len())),
{
    match op {
        OpV::StoreLore(f_a, f_b) => {
            let e_tag = enc_u32(58u32);
            let e_a = enc_str(f_a);
            let e_b = enc_str(f_b);
            lemma_split(b, p, e_tag + e_a, e_b);
            lemma_split(b, p, e_tag, e_a);
            lemma_read_u32(b, p, 58u32);
            lemma_read_str(b, p + 4, f_a);
            lemma_read_str(b, p + 4 + e_a.len(), f_b);
        },
        _ => {},
    }
}

proof fn lemma_read_load_lore(b: Seq<u8>, p: int, op: OpV)
    requires
        op is LoadLore,
        fits_op(op),
        0 <= p,
        p + enc_op(op).len() <= b.len(),
        b.subrange(p, p + enc_op(op).len()) == enc_op(op),
    ensures
        enc_op(op).len() >= 4,
        dec_op(b, p) == Some((op, p + enc_op(op).len())),
{
    match op {
        OpV::LoadLore(f_s) => {
            let e_tag = enc_u32(59u32);
            let e_s = enc_str(f_s);
            lemma_split(b, p, e_tag, e_s);
            lemma_read_u32(b, p, 59u32);
            lemma_read_str(b, p + 4, f_s);
        },
        _ => {},
    }
}

proof fn lemma_read_ctx_share(b: Seq<u8>, p: int, op: OpV)
    requires
        op is CtxShare,
        fits_op(op),
        0 <= p,
        p + enc_op(op).len() <= b.len(),
        b.subrange(p, p + enc_op(op).len()) == enc_op(op),
    ensures
        enc_op(op).len() >= 4,
        dec_op(b, p) == Some((op, p + enc_op(op).len())),
{
    match op {
        OpV::CtxShare => {
            lemma_read_u32(b, p, 60u32);
        },
        _ => {},
    }
}

#[verifier::rlimit(50)]
#[verifier::spinoff_prover]
proof fn lemma_read_ops_n(b: Seq<u8>, p: int, ops: Seq<OpV>, acc: Seq<OpV>)
    requires
        fits_ops(ops),
        0 <= p,
        p + ops_body(ops).len() <= b.len(),
        b.subrange(p, p + ops_body(ops).len()) == ops_body(ops),
    ensures
        dec_ops_n(b, p, ops.len(), acc) == Some((acc + ops, p + ops_body(ops).len())),
    decreases ops, 0int,
{
    if ops.len() == 0 {
        assert(acc + ops =~= acc);
    } else {
        let rest = ops.subrange(1, ops.len() as int);
        lemma_split(b, p, enc_op(ops[0]), ops_body(rest));
        lemma_read_op(b, p, ops[0]);
        lemma_read_ops_n(b, p + enc_op(ops[0]).len(), rest, acc.push(ops[0]));
        assert(acc.push(ops[0]) + rest =~= acc + ops);
    }
}

proof fn lemma_read_ops(b: Seq<u8>, p: int, ops: Seq<OpV>)
    requires
        fits_ops(ops),
        0 <= p,
        p + enc_ops(ops).len() <= b.len(),
        b.subrange(p, p + enc_ops(ops).len()) == enc_ops(ops),
    ensures
        dec_ops(b, p) == Some((ops, p + enc_ops(ops).len())),
    decreases ops, 1int,
{
    lemma_split(b, p, enc_u64(ops.len() as u64), ops_body(ops));
    lemma_read_u64(b, p, ops.len() as u64);
    lemma_read_ops_n(b, p + 8, ops, Seq::empty());
    assert(Seq::<OpV>::empty() + ops =~= ops);
}

#[verifier::rlimit(50)]
#[verifier::spinoff_prover]
proof fn lemma_read_arms_n(
    b: Seq<u8>,
    p: int,
    arms: Seq<(Seq<char>, Seq<char>, Seq<OpV>)>,
    acc: Seq<(Seq<char>, Seq<char>, Seq<OpV>)>,
)
    requires
        fits_arms(arms),
        0 <= p,
        p + arms_body(arms).len() <= b.len(),
        b.subrange(p, p + arms_body(arms).len()) == arms_body(arms),
    ensures
        dec_arms_n(b, p, arms.len(), acc) == Some((acc + arms, p + arms_body(arms).len())),
    decreases arms, 0int,
{
    if arms.len() == 0 {
        assert(acc + arms =~= acc);
    } else {
        let a = arms[0];
        let rest = arms.subrange(1, arms.len() as int);
        let (e0, e1, e2) = (enc_str(a.0), enc_str(a.1), enc_ops(a.2));
        lemma_split(b, p, e0 + e1 + e2, arms_body(rest));
        lemma_split(b, p, e0 + e1, e2);
        lemma_split(b, p, e0, e1);
        lemma_read_str(b, p, a.0);
        lemma_read_str(b, p + e0.len(), a.1);
        lemma_read_ops(b, p + e0.len() + e1.len(), a.2);
        lemma_read_arms_n(b, p + (e0 + e1 + e2).len(), rest, acc.push(a));
        assert(acc.push(a) + rest =~= acc + arms);
    }
}

proof fn lemma_read_arms(b: Seq<u8>, p: int, arms: Seq<(Seq<char>, Seq<char>, Seq<OpV>)>)
    requires
        fits_arms(arms),
        0 <= p,
        p + enc_arms(arms).len() <= b.len(),
        b.subrange(p, p + enc_arms(arms).len()) == enc_arms(arms),
    ensures
        dec_arms(b, p) == Some((arms, p + enc_arms(arms).len())),
    decreases arms, 1int,
{
    lemma_split(b, p, enc_u64(arms.len() as u64), arms_body(arms));
    lemma_read_u64(b, p, arms.len() as u64);
    lemma_read_arms_n(b, p + 8, arms, Seq::empty());
    assert(Seq::<(Seq<char>, Seq<char>, Seq<OpV>)>::empty() + arms =~= arms);
}

#[verifier::rlimit(50)]
#[verifier::spinoff_prover]
proof fn lemma_read_kernel(b: Seq<u8>, p: int, k: KernelV)
    requires
        fits_kernel(k),
        0 <= p,
        p + enc_kernel(k).len() <= b.len(),
        b.subrange(p, p + enc_kernel(k).len()) == enc_kernel(k),
    ensures
        dec_kernel(b, p) == Some((k, p + enc_kernel(k).len())),
{
    let (e0, e1, e2, e3) = (enc_str(k.name), enc_strs(k.params), enc_ops(k.body), enc_u8(k.max_retries));
    lemma_split(b, p, e0 + e1 + e2, e3);
    lemma_split(b, p, e0 + e1, e2);
    lemma_split(b, p, e0, e1);
    lemma_read_str(b, p, k.name);
    lemma_read_strs(b, p + e0.len(), k.params);
    lemma_read_ops(b, p + e0.len() + e1.len(), k.body);
    lemma_read_u8(b, p + e0.len() + e1.len() + e2.len(), k.max_retries);
}

#[verifier::rlimit(50)]
#[verifier::spinoff_prover]
proof fn lemma_read_kernels_n(b: Seq<u8>, p: int, ks: Seq<KernelV>, acc: Seq<KernelV>)
    requires
        forall|i: int| 0 <= i < ks.len() ==> fits_kernel(#[trigger] ks[i]),
        0 <= p,
        p + kernels_body(ks).len() <= b.len(),
        b.subrange(p, p + kernels_body(ks).len()) == kernels_body(ks),
    ensures
        dec_kernels_n(b, p, ks.len(), acc) == Some((acc + ks, p + kernels_body(ks).len())),
    decreases ks.len(),
{
    if ks.len() == 0 {
        assert(acc + ks =~= acc);
    } else {
        let rest = ks.subrange(1, ks.len() as int);
        lemma_split(b, p, enc_kernel(ks[0]), kernels_body(rest));
        lemma_read_kernel(b, p, ks[0]);
        assert forall|i: int| 0 <= i < rest.len() implies fits_kernel(#[trigger] rest[i]) by {
            assert(rest[i] == ks[i + 1]);
        }
        lemma_read_kernels_n(b, p + enc_kernel(ks[0]).len(), rest, acc.push(ks[0]));
        assert(acc.push(ks[0]) + rest =~= acc + ks);
    }
}

/// Decoding gives back what was encoded: whatever bytes follow a program
/// written by `encode_bytecode`, `decode_bytecode` reads the same program
/// back and stops exactly at its end.
#[verifier::rlimit(50)]
#[verifier::spinoff_prover]
pub proof fn law_decode_encode(bc: BytecodeV, rest: Seq<u8>)
    requires
        fits_bytecode(bc),
    ensures
        dec_bytecode(enc_bytecode(bc) + rest) == Some((bc, enc_bytecode(bc).len() as int)),
{
    let b = enc_bytecode(bc) + rest;
    let (m, e0, e1, e2, e3) = (
        bc.magic,
        enc_u16(bc.version),
        enc_u64(bc.kernels.len() as u64),
        kernels_body(bc.kernels),
        enc_ops(bc.instructions),
    );
    let n = enc_bytecode(bc).len() as int;
    assert(b.subrange(0, n) =~= enc_bytecode(bc));
    lemma_split(b, 0, m + e0 + e1 + e2, e3);
    lemma_split(b, 0, m + e0 + e1, e2);
    lemma_split(b, 0, m + e0, e1);
    lemma_split(b, 0, m, e0);
    lemma_read_u16(b, 4, bc.version);
    lemma_read_u64(b, 6, bc.kernels.len() as u64);
    lemma_read_kernels_n(b, 14, bc.kernels, Seq::empty());
    assert(Seq::<KernelV>::empty() + bc.kernels =~= bc.kernels);
    lemma_read_ops(b, 14 + e2.len() as int, bc.instructions);
    assert(b.subrange(0, 4) =~= bc.magic);
}

/// What `dec_op` accepts at `p` is the encoding of the instruction it returns.
proof fn lemma_back_op(b: Seq<u8>, p: int)
    requires
        0 <= p <= b.len(),
        dec_op(b, p) is Some,
    ensures
        p < (dec_op(b, p)->0).1 <= b.len(),
        fits_op((dec_op(b, p)->0).0),
        b.subrange(p, (dec_op(b, p)->0).1) == enc_op((dec_op(b, p)->0).0),
    decreases b.len() - p, 2int,
{
    let tag = (dec_u32(b, p)->0).0;
    if tag == 0u32 {
        lemma_back_push_str(b, p);
    } else if tag == 1u32 {
        lemma_back_push_int(b, p);
    } else if tag == 2u32 {
        lemma_back_push_float(b, p);
    } else if tag == 3u32 {
        lemma_back_store_local(b, p);
    } else if tag == 4u32 {
        lemma_back_load_local(b, p);
    } else if tag == 5u32 {
        lemma_back_ctx_alloc(b, p);
    } else if tag == 6u32 {
        lemma_back_ctx_free_stack(b, p);
    } else if tag == 7u32 {
        lemma_back_ctx_append_stack(b, p);
    } else if tag == 8u32 {
        lemma_back_ctx_compress(b, p);
    } else if tag == 9u32 {
        lemma_back_ctx_resize(b, p);
    } else if tag == 10u32 {
        lemma_back_return(b, p);
    } else if tag == 11u32 {
        lemma_back_halt(b, p);
    } else if tag == 12u32 {
        lemma_back_jump(b, p);
    } else if tag == 13u32 {
        lemma_back_jump_if_false(b, p);
    } else if tag == 14u32 {
        lemma_back_call_kernel(b, p);
    } else if tag == 15u32 {
        lemma_back_println(b, p);
    } else if tag == 16u32 {
        lemma_back_branch_classify(b, p);
    } else if tag == 17u32 {
        lemma_back_infer_classify(b, p);
    } else if tag == 18u32 {
        lemma_back_observe(b, p);
    } else if tag == 19u32 {
        lemma_back_reason(b, p);
    } else if tag == 20u32 {
        lemma_back_act(b, p);
    } else if tag == 21u32 {
        lemma_back_verify_step(b, p);
    } else if tag == 22u32 {
        lemma_back_begin_interruptible(b, p);
    } else if tag == 23u32 {
        lemma_back_end_interruptible(b, p);
    } else if tag == 24u32 {
        lemma_back_cmp_eq(b, p);
    } else if tag == 25u32 {
        lemma_back_cmp_not_eq(b, p);
    } else if tag == 26u32 {
        lemma_back_cmp_gt(b, p);
    } else if tag == 27u32 {
        lemma_back_cmp_lt(b, p);
    } else if tag == 28u32 {
        lemma_back_add(b, p);
    } else if tag == 29u32 {
        lemma_back_sub(b, p);
    } else if tag == 30u32 {
        lemma_back_mul(b, p);
    } else if tag == 31u32 {
        lemma_back_div(b, p);
    } else if tag == 32u32 {
        lemma_back_mod(b, p);
    } else if tag == 33u32 {
        lemma_back_and(b, p);
    } else if tag == 34u32 {
        lemma_back_or(b, p);
    } else if tag == 35u32 {
        lemma_back_push_bool(b, p);
    } else if tag == 36u32 {
        lemma_back_tuple_pack(b, p);
    } else if tag == 37u32 {
        lemma_back_vec_new(b, p);
    } else if tag == 38u32 {
        lemma_back_vec_get(b, p);
    } else if tag == 39u32 {
        lemma_back_vec_set(b, p);
    } else if tag == 40u32 {
        lemma_back_vec_len(b, p);
    } else if tag == 41u32 {
        lemma_back_vec_push(b, p);
    } else if tag == 42u32 {
        lemma_back_field_access(b, p);
    } else if tag == 43u32 {
        lemma_back_struct_construct(b, p);
    } else if tag == 44u32 {
        lemma_back_enum_variant(b, p);
    } else if tag == 45u32 {
        lemma_back_set_agent_meta(b, p);
    } else if tag == 46u32 {
        lemma_back_ctx_append_literal(b, p);
    } else if tag == 47u32 {
        lemma_back_register_skill(b, p);
    } else if tag == 48u32 {
        lemma_back_alloc_memory_slot(b, p);
    } else if tag == 49u32 {
        lemma_back_load_memory(b, p);
    } else if tag == 50u32 {
        lemma_back_store_memory(b, p);
    } else if tag == 51u32 {
        lemma_back_call_oracle(b, p);
    } else if tag == 52u32 {
        lemma_back_begin_constraint(b, p);
    } else if tag == 53u32 {
        lemma_back_end_constraint(b, p);
    } else if tag == 54u32 {
        lemma_back_constraint_verify(b, p);
    } else if tag == 55u32 {
        lemma_back_persist_load(b, p);
    } else if tag == 56u32 {
        lemma_back_persist_save(b, p);
    } else if tag == 57u32 {
        lemma_back_persist_delete(b, p);
    } else if tag == 58u32 {
        lemma_back_store_lore(b, p);
    } else if tag == 59u32 {
        lemma_back_load_lore(b, p);
    } else if tag == 60u32 {
        lemma_back_ctx_share(b, p);
    }
}

proof fn lemma_back_push_str(b: Seq<u8>, p: int)
    requires
        0 <= p <= b.len(),
        dec_op(b, p) is Some,
        (dec_u32(b, p)->0).0 == 0u32,
    ensures
        p < (dec_op(b, p)->0).1 <= b.len(),
        fits_op((dec_op(b, p)->0).0),
        b.subrange(p, (dec_op(b, p)->0).1) == enc_op((dec_op(b, p)->0).0),
    decreases b.len() - p, 1int,
{
    lemma_back_u32d(b, p);
    let p0 = p + 4;
    lemma_back_str(b, p0);
    let p1 = (dec_str(b, p0)->0).1;
    lemma_join(b, p, p0, p1);
}

proof fn lemma_back_push_int(b: Seq<u8>, p: int)
    requires
        0 <= p <= b.len(),
        dec_op(b, p) is Some,
        (dec_u32(b, p)->0).0 == 1u32,
    ensures
        p < (dec_op(b, p)->0).1 <= b.len(),
        fits_op((dec_op(b, p)->0).0),
        b.subrange(p, (dec_op(b, p)->0).1) == enc_op((dec_op(b, p)->0).0),
    decreases b.len() - p, 1int,
{
    lemma_back_u32d(b, p);
    let p0 = p + 4;
    lemma_back_u64d(b, p0);
    let p1 = (dec_u64(b, p0)->0).1;
    lemma_join(b, p, p0, p1);
}

proof fn lemma_back_push_float(b: Seq<u8>, p: int)
    requires
        0 <= p <= b.len(),
        dec_op(b, p) is Some,
        (dec_u32(b, p)->0).0 == 2u32,
    ensures
        p < (dec_op(b, p)->0).1 <= b.len(),
        fits_op((dec_op(b, p)->0).0),
        b.subrange(p, (dec_op(b, p)->0).1) == enc_op((dec_op(b, p)->0).0),
    decreases b.len() - p, 1int,
{
    lemma_back_u32d(b, p);
    let p0 = p + 4;
    lemma_back_str(b, p0);
    let p1 = (dec_str(b, p0)->0).1;
    lemma_join(b, p, p0, p1);
}

proof fn lemma_back_store_local(b: Seq<u8>, p: int)
    requires
        0 <= p <= b.len(),
        dec_op(b, p) is Some,
        (dec_u32(b, p)->0).0 == 3u32,
    ensures
        p < (dec_op(b, p)->0).1 <= b.len(),
        fits_op((dec_op(b, p)->0).0),
        b.subrange(p, (dec_op(b, p)->0).1) == enc_op((dec_op(b, p)->0).0),
    decreases b.len() - p, 1int,
{
    lemma_back_u32d(b, p);
    let p0 = p + 4;
    lemma_back_str(b, p0);
    let p1 = (dec_str(b, p0)->0).1;
    lemma_join(b, p, p0, p1);
}

proof fn lemma_back_load_local(b: Seq<u8>, p: int)
    requires
        0 <= p <= b.len(),
        dec_op(b, p) is Some,
        (dec_u32(b, p)->0).0 == 4u32,
    ensures
        p < (dec_op(b, p)->0).1 <= b.len(),
        fits_op((dec_op(b, p)->0).0),
        b.subrange(p, (dec_op(b, p)->0).1) == enc_op((dec_op(b, p)->0).0),
    decreases b.len() - p, 1int,
{
    lemma_back_u32d(b, p);
    let p0 = p + 4;
    lemma_back_str(b, p0);
    let p1 = (dec_str(b, p0)->0).1;
    lemma_join(b, p, p0, p1);
}

proof fn lemma_back_ctx_alloc(b: Seq<u8>, p: int)
    requires
        0 <= p <= b.len(),
        dec_op(b, p) is Some,
        (dec_u32(b, p)->0).0 == 5u32,
    ensures
        p < (dec_op(b, p)->0).1 <= b.len(),
        fits_op((dec_op(b, p)->0).0),
        b.subrange(p, (dec_op(b, p)->0).1) == enc_op((dec_op(b, p)->0).0),
    decreases b.len() - p, 1int,
{
    lemma_back_u32d(b, p);
    let p0 = p + 4;
    lemma_back_u32d(b, p0);
    let p1 = (dec_u32(b, p0)->0).1;
    lemma_join(b, p, p0, p1);
}

proof fn lemma_back_ctx_free_stack(b: Seq<u8>, p: int)
    requires
        0 <= p <= b.len(),
        dec_op(b, p) is Some,
        (dec_u32(b, p)->0).0 == 6u32,
    ensures
        p < (dec_op(b, p)->0).1 <= b.len(),
        fits_op((dec_op(b, p)->0).0),
        b.subrange(p, (dec_op(b, p)->0).1) == enc_op((dec_op(b, p)->0).0),
    decreases b.len() - p, 1int,
{
    lemma_back_u32d(b, p);
    let p0 = p + 4;
}

proof fn lemma_back_ctx_append_stack(b: Seq<u8>, p: int)
    requires
        0 <= p <= b.len(),
        dec_op(b, p) is Some,
        (dec_u32(b, p)->0).0 == 7u32,
    ensures
        p < (dec_op(b, p)->0).1 <= b.len(),
        fits_op((dec_op(b, p)->0).0),
        b.subrange(p, (dec_op(b, p)->0).1) == enc_op((dec_op(b, p)->0).0),
    decreases b.len() - p, 1int,
{
    lemma_back_u32d(b, p);
    let p0 = p + 4;
}

proof fn lemma_back_ctx_compress(b: Seq<u8>, p: int)
    requires
        0 <= p <= b.len(),
        dec_op(b, p) is Some,
        (dec_u32(b, p)->0).0 == 8u32,
    ensures
        p < (dec_op(b, p)->0).1 <= b.len(),
        fits_op((dec_op(b, p)->0).0),
        b.subrange(p, (dec_op(b, p)->0).1) == enc_op((dec_op(b, p)->0).0),
    decreases b.len() - p, 1int,
{
    lemma_back_u32d(b, p);
    let p0 = p + 4;
}

proof fn lemma_back_ctx_resize(b: Seq<u8>, p: int)
    requires
        0 <= p <= b.len(),
        dec_op(b, p) is Some,
        (dec_u32(b, p)->0).0 == 9u32,
    ensures
        p < (dec_op(b, p)->0).1 <= b.len(),
        fits_op((dec_op(b, p)->0).0),
        b.subrange(p, (dec_op(b, p)->0).1) == enc_op((dec_op(b, p)->0).0),
    decreases b.len() - p, 1int,
{
    lemma_back_u32d(b, p);
    let p0 = p + 4;
    lemma_back_u8(b, p0);
    let p1 = (dec_u8(b, p0)->0).1;
    lemma_join(b, p, p0, p1);
    lemma_back_u32d(b, p1);
    let p2 = (dec_u32(b, p1)->0).1;
    lemma_join(b, p, p1, p2);
}

proof fn lemma_back_return(b: Seq<u8>, p: int)
    requires
        0 <= p <= b.len(),
        dec_op(b, p) is Some,
        (dec_u32(b, p)->0).0 == 10u32,
    ensures
        p < (dec_op(b, p)->0).1 <= b.len(),
        fits_op((dec_op(b, p)->0).0),
        b.subrange(p, (dec_op(b, p)->0).1) == enc_op((dec_op(b, p)->0).0),
    decreases b.len() - p, 1int,
{
    lemma_back_u32d(b, p);
    let p0 = p + 4;
}

proof fn lemma_back_halt(b: Seq<u8>, p: int)
    requires
        0 <= p <= b.len(),
        dec_op(b, p) is Some,
        (dec_u32(b, p)->0).0 == 11u32,
    ensures
        p < (dec_op(b, p)->0).1 <= b.len(),
        fits_op((dec_op(b, p)->0).0),
        b.subrange(p, (dec_op(b, p)->0).1) == enc_op((dec_op(b, p)->0).0),
    decreases b.len() - p, 1int,
{
    lemma_back_u32d(b, p);
    let p0 = p + 4;
}

proof fn lemma_back_jump(b: Seq<u8>, p: int)
    requires
        0 <= p <= b.len(),
        dec_op(b, p) is Some,
        (dec_u32(b, p)->0).0 == 12u32,
    ensures
        p < (dec_op(b, p)->0).1 <= b.len(),
        fits_op((dec_op(b, p)->0).0),
        b.subrange(p, (dec_op(b, p)->0).1) == enc_op((dec_op(b, p)->0).0),
    decreases b.len() - p, 1int,
{
    lemma_back_u32d(b, p);
    let p0 = p + 4;
    lemma_back_usize(b, p0);
    let p1 = (dec_usize(b, p0)->0).1;
    lemma_join(b, p, p0, p1);
}

proof fn lemma_back_jump_if_false(b: Seq<u8>, p: int)
    requires
        0 <= p <= b.len(),
        dec_op(b, p) is Some,
        (dec_u32(b, p)->0).0 == 13u32,
    ensures
        p < (dec_op(b, p)->0).1 <= b.len(),
        fits_op((dec_op(b, p)->0).0),
        b.subrange(p, (dec_op(b, p)->0).1) == enc_op((dec_op(b, p)->0).0),
    decreases b.len() - p, 1int,
{
    lemma_back_u32d(b, p);
    let p0 = p + 4;
    lemma_back_usize(b, p0);
    let p1 = (dec_usize(b, p0)->0).1;
    lemma_join(b, p, p0, p1);
}

proof fn lemma_back_call_kernel(b: Seq<u8>, p: int)
    requires
        0 <= p <= b.len(),
        dec_op(b, p) is Some,
        (dec_u32(b, p)->0).0 == 14u32,
    ensures
        p < (dec_op(b, p)->0).1 <= b.len(),
        fits_op((dec_op(b, p)->0).0),
        b.subrange(p, (dec_op(b, p)->0).1) == enc_op((dec_op(b, p)->0).0),
    decreases b.len() - p, 1int,
{
    lemma_back_u32d(b, p);
    let p0 = p + 4;
    lemma_back_u16d(b, p0);
    let p1 = (dec_u16(b, p0)->0).1;
    lemma_join(b, p, p0, p1);
}

proof fn lemma_back_println(b: Seq<u8>, p: int)
    requires
        0 <= p <= b.len(),
        dec_op(b, p) is Some,
        (dec_u32(b, p)->0).0 == 15u32,
    ensures
        p < (dec_op(b, p)->0).1 <= b.len(),
        fits_op((dec_op(b, p)->0).0),
        b.subrange(p, (dec_op(b, p)->0).1) == enc_op((dec_op(b, p)->0).0),
    decreases b.len() - p, 1int,
{
    lemma_back_u32d(b, p);
    let p0 = p + 4;
}

proof fn lemma_back_branch_classify(b: Seq<u8>, p: int)
    requires
        0 <= p <= b.len(),
        dec_op(b, p) is Some,
        (dec_u32(b, p)->0).0 == 16u32,
    ensures
        p < (dec_op(b, p)->0).1 <= b.len(),
        fits_op((dec_op(b, p)->0).0),
        b.subrange(p, (dec_op(b, p)->0).1) == enc_op((dec_op(b, p)->0).0),
    decreases b.len() - p, 1int,
{
    lemma_back_u32d(b, p);
    let p0 = p + 4;
    lemma_back_str(b, p0);
    let p1 = (dec_str(b, p0)->0).1;
    lemma_join(b, p, p0, p1);
    lemma_back_arms(b, p1);
    let p2 = (dec_arms(b, p1)->0).1;
    lemma_join(b, p, p1, p2);
    lemma_back_ops(b, p2);
    let p3 = (dec_ops(b, p2)->0).1;
    lemma_join(b, p, p2, p3);
}

proof fn lemma_back_infer_classify(b: Seq<u8>, p: int)
    requires
        0 <= p <= b.len(),
        dec_op(b, p) is Some,
        (dec_u32(b, p)->0).0 == 17u32,
    ensures
        p < (dec_op(b, p)->0).1 <= b.len(),
        fits_op((dec_op(b, p)->0).0),
        b.subrange(p, (dec_op(b, p)->0).1) == enc_op((dec_op(b, p)->0).0),
    decreases b.len() - p, 1int,
{
    lemma_back_u32d(b, p);
    let p0 = p + 4;
    lemma_back_strs(b, p0);
    let p1 = (dec_strs(b, p0)->0).1;
    lemma_join(b, p, p0, p1);
}

proof fn lemma_back_observe(b: Seq<u8>, p: int)
    requires
        0 <= p <= b.len(),
        dec_op(b, p) is Some,
        (dec_u32(b, p)->0).0 == 18u32,
    ensures
        p < (dec_op(b, p)->0).1 <= b.len(),
        fits_op((dec_op(b, p)->0).0),
        b.subrange(p, (dec_op(b, p)->0).1) == enc_op((dec_op(b, p)->0).0),
    decreases b.len() - p, 1int,
{
    lemma_back_u32d(b, p);
    let p0 = p + 4;
}

proof fn lemma_back_reason(b: Seq<u8>, p: int)
    requires
        0 <= p <= b.len(),
        dec_op(b, p) is Some,
        (dec_u32(b, p)->0).0 == 19u32,
    ensures
        p < (dec_op(b, p)->0).1 <= b.len(),
        fits_op((dec_op(b, p)->0).0),
        b.subrange(p, (dec_op(b, p)->0).1) == enc_op((dec_op(b, p)->0).0),
    decreases b.len() - p, 1int,
{
    lemma_back_u32d(b, p);
    let p0 = p + 4;
    lemma_back_str(b, p0);
    let p1 = (dec_str(b, p0)->0).1;
    lemma_join(b, p, p0, p1);
}

proof fn lemma_back_act(b: Seq<u8>, p: int)
    requires
        0 <= p <= b.len(),
        dec_op(b, p) is Some,
        (dec_u32(b, p)->0).0 == 20u32,
    ensures
        p < (dec_op(b, p)->0).1 <= b.len(),
        fits_op((dec_op(b, p)->0).0),
        b.subrange(p, (dec_op(b, p)->0).1) == enc_op((dec_op(b, p)->0).0),
    decreases b.len() - p, 1int,
{
    lemma_back_u32d(b, p);
    let p0 = p + 4;
}

proof fn lemma_back_verify_step(b: Seq<u8>, p: int)
    requires
        0 <= p <= b.len(),
        dec_op(b, p) is Some,
        (dec_u32(b, p)->0).0 == 21u32,
    ensures
        p < (dec_op(b, p)->0).1 <= b.len(),
        fits_op((dec_op(b, p)->0).0),
        b.subrange(p, (dec_op(b, p)->0).1) == enc_op((dec_op(b, p)->0).0),
    decreases b.len() - p, 1int,
{
    lemma_back_u32d(b, p);
    let p0 = p + 4;
}

proof fn lemma_back_begin_interruptible(b: Seq<u8>, p: int)
    requires
        0 <= p <= b.len(),
        dec_op(b, p) is Some,
        (dec_u32(b, p)->0).0 == 22u32,
    ensures
        p < (dec_op(b, p)->0).1 <= b.len(),
        fits_op((dec_op(b, p)->0).0),
        b.subrange(p, (dec_op(b, p)->0).1) == enc_op((dec_op(b, p)->0).0),
    decreases b.len() - p, 1int,
{
    lemma_back_u32d(b, p);
    let p0 = p + 4;
}

proof fn lemma_back_end_interruptible(b: Seq<u8>, p: int)
    requires
        0 <= p <= b.len(),
        dec_op(b, p) is Some,
        (dec_u32(b, p)->0).0 == 23u32,
    ensures
        p < (dec_op(b, p)->0).1 <= b.len(),
        fits_op((dec_op(b, p)->0).0),
        b.subrange(p, (dec_op(b, p)->0).1) == enc_op((dec_op(b, p)->0).0),
    decreases b.len() - p, 1int,
{
    lemma_back_u32d(b, p);
    let p0 = p + 4;
}

proof fn lemma_back_cmp_eq(b: Seq<u8>, p: int)
    requires
        0 <= p <= b.len(),
        dec_op(b, p) is Some,
        (dec_u32(b, p)->0).0 == 24u32,
    ensures
        p < (dec_op(b, p)->0).1 <= b.len(),
        fits_op((dec_op(b, p)->0).0),
        b.subrange(p, (dec_op(b, p)->0).1) == enc_op((dec_op(b, p)->0).0),
    decreases b.len() - p, 1int,
{
    lemma_back_u32d(b, p);
    let p0 = p + 4;
}

proof fn lemma_back_cmp_not_eq(b: Seq<u8>, p: int)
    requires
        0 <= p <= b.len(),
        dec_op(b, p) is Some,
        (dec_u32(b, p)->0).0 == 25u32,
    ensures
        p < (dec_op(b, p)->0).1 <= b.len(),
        fits_op((dec_op(b, p)->0).0),
        b.subrange(p, (dec_op(b, p)->0).1) == enc_op((dec_op(b, p)->0).0),
    decreases b.len() - p, 1int,
{
    lemma_back_u32d(b, p);
    let p0 = p + 4;
}

proof fn lemma_back_cmp_gt(b: Seq<u8>, p: int)
    requires
        0 <= p <= b.len(),
        dec_op(b, p) is Some,
        (dec_u32(b, p)->0).0 == 26u32,
    ensures
        p < (dec_op(b, p)->0).1 <= b.len(),
        fits_op((dec_op(b, p)->0).0),
        b.subrange(p, (dec_op(b, p)->0).1) == enc_op((dec_op(b, p)->0).0),
    decreases b.len() - p, 1int,
{
    lemma_back_u32d(b, p);
    let p0 = p + 4;
}

proof fn lemma_back_cmp_lt(b: Seq<u8>, p: int)
    requires
        0 <= p <= b.len(),
        dec_op(b, p) is Some,
        (dec_u32(b, p)->0).0 == 27u32,
    ensures
        p < (dec_op(b, p)->0).1 <= b.len(),
        fits_op((dec_op(b, p)->0).0),
        b.subrange(p, (dec_op(b, p)->0).1) == enc_op((dec_op(b, p)->0).0),
    decreases b.len() - p, 1int,
{
    lemma_back_u32d(b, p);
    let p0 = p + 4;
}

proof fn lemma_back_add(b: Seq<u8>, p: int)
    requires
        0 <= p <= b.len(),
        dec_op(b, p) is Some,
        (dec_u32(b, p)->0).0 == 28u32,
    ensures
        p < (dec_op(b, p)->0).1 <= b.len(),
        fits_op((dec_op(b, p)->0).0),
        b.subrange(p, (dec_op(b, p)->0).1) == enc_op((dec_op(b, p)->0).0),
    decreases b.len() - p, 1int,
{
    lemma_back_u32d(b, p);
    let p0 = p + 4;
}

proof fn lemma_back_sub(b: Seq<u8>, p: int)
    requires
        0 <= p <= b.len(),
        dec_op(b, p) is Some,
        (dec_u32(b, p)->0).0 == 29u32,
    ensures
        p < (dec_op(b, p)->0).1 <= b.len(),
        fits_op((dec_op(b, p)->0).0),
        b.subrange(p, (dec_op(b, p)->0).1) == enc_op((dec_op(b, p)->0).0),
    decreases b.len() - p, 1int,
{
    lemma_back_u32d(b, p);
    let p0 = p + 4;
}

proof fn lemma_back_mul(b: Seq<u8>, p: int)
    requires
        0 <= p <= b.len(),
        dec_op(b, p) is Some,
        (dec_u32(b, p)->0).0 == 30u32,
    ensures
        p < (dec_op(b, p)->0).1 <= b.len(),
        fits_op((dec_op(b, p)->0).0),
        b.subrange(p, (dec_op(b, p)->0).1) == enc_op((dec_op(b, p)->0).0),
    decreases b.len() - p, 1int,
{
    lemma_back_u32d(b, p);
    let p0 = p + 4;
}

proof fn lemma_back_div(b: Seq<u8>, p: int)
    requires
        0 <= p <= b.len(),
        dec_op(b, p) is Some,
        (dec_u32(b, p)->0).0 == 31u32,
    ensures
        p < (dec_op(b, p)->0).1 <= b.len(),
        fits_op((dec_op(b, p)->0).0),
        b.subrange(p, (dec_op(b, p)->0).1) == enc_op((dec_op(b, p)->0).0),
    decreases b.len() - p, 1int,
{
    lemma_back_u32d(b, p);
    let p0 = p + 4;
}

proof fn lemma_back_mod(b: Seq<u8>, p: int)
    requires
        0 <= p <= b.len(),
        dec_op(b, p) is Some,
        (dec_u32(b, p)->0).0 == 32u32,
    ensures
        p < (dec_op(b, p)->0).1 <= b.len(),
        fits_op((dec_op(b, p)->0).0),
        b.subrange(p, (dec_op(b, p)->0).1) == enc_op((dec_op(b, p)->0).0),
    decreases b.len() - p, 1int,
{
    lemma_back_u32d(b, p);
    let p0 = p + 4;
}

proof fn lemma_back_and(b: Seq<u8>, p: int)
    requires
        0 <= p <= b.len(),
        dec_op(b, p) is Some,
        (dec_u32(b, p)->0).0 == 33u32,
    ensures
        p < (dec_op(b, p)->0).1 <= b.len(),
        fits_op((dec_op(b, p)->0).0),
        b.subrange(p, (dec_op(b, p)->0).1) == enc_op((dec_op(b, p)->0).0),
    decreases b.len() - p, 1int,
{
    lemma_back_u32d(b, p);
    let p0 = p + 4;
}

proof fn lemma_back_or(b: Seq<u8>, p: int)
    requires
        0 <= p <= b.len(),
        dec_op(b, p) is Some,
        (dec_u32(b, p)->0).0 == 34u32,
    ensures
        p < (dec_op(b, p)->0).1 <= b.len(),
        fits_op((dec_op(b, p)->0).0),
        b.subrange(p, (dec_op(b, p)->0).1) == enc_op((dec_op(b, p)->0).0),
    decreases b.len() - p, 1int,
{
    lemma_back_u32d(b, p);
    let p0 = p + 4;
}

proof fn lemma_back_push_bool(b: Seq<u8>, p: int)
    requires
        0 <= p <= b.len(),
        dec_op(b, p) is Some,
        (dec_u32(b, p)->0).0 == 35u32,
    ensures
        p < (dec_op(b, p)->0).1 <= b.len(),
        fits_op((dec_op(b, p)->0).0),
        b.subrange(p, (dec_op(b, p)->0).1) == enc_op((dec_op(b, p)->0).0),
    decreases b.len() - p, 1int,
{
    lemma_back_u32d(b, p);
    let p0 = p + 4;
    lemma_back_bool(b, p0);
    let p1 = (dec_bool(b, p0)->0).1;
    lemma_join(b, p, p0, p1);
}

proof fn lemma_back_tuple_pack(b: Seq<u8>, p: int)
    requires
        0 <= p <= b.len(),
        dec_op(b, p) is Some,
        (dec_u32(b, p)->0).0 == 36u32,
    ensures
        p < (dec_op(b, p)->0).1 <= b.len(),
        fits_op((dec_op(b, p)->0).0),
        b.subrange(p, (dec_op(b, p)->0).1) == enc_op((dec_op(b, p)->0).0),
    decreases b.len() - p, 1int,
{
    lemma_back_u32d(b, p);
    let p0 = p + 4;
    lemma_back_u8(b, p0);
    let p1 = (dec_u8(b, p0)->0).1;
    lemma_join(b, p, p0, p1);
}

proof fn lemma_back_vec_new(b: Seq<u8>, p: int)
    requires
        0 <= p <= b.len(),
        dec_op(b, p) is Some,
        (dec_u32(b, p)->0).0 == 37u32,
    ensures
        p < (dec_op(b, p)->0).1 <= b.len(),
        fits_op((dec_op(b, p)->0).0),
        b.subrange(p, (dec_op(b, p)->0).1) == enc_op((dec_op(b, p)->0).0),
    decreases b.len() - p, 1int,
{
    lemma_back_u32d(b, p);
    let p0 = p + 4;
    lemma_back_u8(b, p0);
    let p1 = (dec_u8(b, p0)->0).1;
    lemma_join(b, p, p0, p1);
}

proof fn lemma_back_vec_get(b: Seq<u8>, p: int)
    requires
        0 <= p <= b.len(),
        dec_op(b, p) is Some,
        (dec_u32(b, p)->0).0 == 38u32,
    ensures
        p < (dec_op(b, p)->0).1 <= b.len(),
        fits_op((dec_op(b, p)->0).0),
        b.subrange(p, (dec_op(b, p)->0).1) == enc_op((dec_op(b, p)->0).0),
    decreases b.len() - p, 1int,
{
    lemma_back_u32d(b, p);
    let p0 = p + 4;
}

proof fn lemma_back_vec_set(b: Seq<u8>, p: int)
    requires
        0 <= p <= b.len(),
        dec_op(b, p) is Some,
        (dec_u32(b, p)->0).0 == 39u32,
    ensures
        p < (dec_op(b, p)->0).1 <= b.len(),
        fits_op((dec_op(b, p)->0).0),
        b.subrange(p, (dec_op(b, p)->0).1) == enc_op((dec_op(b, p)->0).0),
    decreases b.len() - p, 1int,
{
    lemma_back_u32d(b, p);
    let p0 = p + 4;
}

proof fn lemma_back_vec_len(b: Seq<u8>, p: int)
    requires
        0 <= p <= b.len(),
        dec_op(b, p) is Some,
        (dec_u32(b, p)->0).0 == 40u32,
    ensures
        p < (dec_op(b, p)->0).1 <= b.len(),
        fits_op((dec_op(b, p)->0).0),
        b.subrange(p, (dec_op(b, p)->0).1) == enc_op((dec_op(b, p)->0).0),
    decreases b.len() - p, 1int,
{
    lemma_back_u32d(b, p);
    let p0 = p + 4;
}

proof fn lemma_back_vec_push(b: Seq<u8>, p: int)
    requires
        0 <= p <= b.len(),
        dec_op(b, p) is Some,
        (dec_u32(b, p)->0).0 == 41u32,
    ensures
        p < (dec_op(b, p)->0).1 <= b.len(),
        fits_op((dec_op(b, p)->0).0),
        b.subrange(p, (dec_op(b, p)->0).1) == enc_op((dec_op(b, p)->0).0),
    decreases b.len() - p, 1int,
{
    lemma_back_u32d(b, p);
    let p0 = p + 4;
}

proof fn lemma_back_field_access(b: Seq<u8>, p: int)
    requires
        0 <= p <= b.len(),
        dec_op(b, p) is Some,
        (dec_u32(b, p)->0).0 == 42u32,
    ensures
        p < (dec_op(b, p)->0).1 <= b.len(),
        fits_op((dec_op(b, p)->0).0),
        b.subrange(p, (dec_op(b, p)->0).1) == enc_op((dec_op(b, p)->0).0),
    decreases b.len() - p, 1int,
{
    lemma_back_u32d(b, p);
    let p0 = p + 4;
    lemma_back_str(b, p0);
    let p1 = (dec_str(b, p0)->0).1;
    lemma_join(b, p, p0, p1);
}

proof fn lemma_back_struct_construct(b: Seq<u8>, p: int)
    requires
        0 <= p <= b.len(),
        dec_op(b, p) is Some,
        (dec_u32(b, p)->0).0 == 43u32,
    ensures
        p < (dec_op(b, p)->0).1 <= b.len(),
        fits_op((dec_op(b, p)->0).0),
        b.subrange(p, (dec_op(b, p)->0).1) == enc_op((dec_op(b, p)->0).0),
    decreases b.len() - p, 1int,
{
    lemma_back_u32d(b, p);
    let p0 = p + 4;
    lemma_back_str(b, p0);
    let p1 = (dec_str(b, p0)->0).1;
    lemma_join(b, p, p0, p1);
    lemma_back_strs(b, p1);
    let p2 = (dec_strs(b, p1)->0).1;
    lemma_join(b, p, p1, p2);
}

proof fn lemma_back_enum_variant(b: Seq<u8>, p: int)
    requires
        0 <= p <= b.len(),
        dec_op(b, p) is Some,
        (dec_u32(b, p)->0).0 == 44u32,
    ensures
        p < (dec_op(b, p)->0).1 <= b.len(),
        fits_op((dec_op(b, p)->0).0),
        b.subrange(p, (dec_op(b, p)->0).1) == enc_op((dec_op(b, p)->0).0),
    decreases b.len() - p, 1int,
{
    lemma_back_u32d(b, p);
    let p0 = p + 4;
    lemma_back_str(b, p0);
    let p1 = (dec_str(b, p0)->0).1;
    lemma_join(b, p, p0, p1);
    lemma_back_bool(b, p1);
    let p2 = (dec_bool(b, p1)->0).1;
    lemma_join(b, p, p1, p2);
}

proof fn lemma_back_set_agent_meta(b: Seq<u8>, p: int)
    requires
        0 <= p <= b.len(),
        dec_op(b, p) is Some,
        (dec_u32(b, p)->0).0 == 45u32,
    ensures
        p < (dec_op(b, p)->0).1 <= b.len(),
        fits_op((dec_op(b, p)->0).0),
        b.subrange(p, (dec_op(b, p)->0).1) == enc_op((dec_op(b, p)->0).0),
    decreases b.len() - p, 1int,
{
    lemma_back_u32d(b, p);
    let p0 = p + 4;
    lemma_back_str(b, p0);
    let p1 = (dec_str(b, p0)->0).1;
    lemma_join(b, p, p0, p1);
}

proof fn lemma_back_ctx_append_literal(b: Seq<u8>, p: int)
    requires
        0 <= p <= b.len(),
        dec_op(b, p) is Some,
        (dec_u32(b, p)->0).0 == 46u32,
    ensures
        p < (dec_op(b, p)->0).1 <= b.len(),
        fits_op((dec_op(b, p)->0).0),
        b.subrange(p, (dec_op(b, p)->0).1) == enc_op((dec_op(b, p)->0).0),
    decreases b.len() - p, 1int,
{
    lemma_back_u32d(b, p);
    let p0 = p + 4;
    lemma_back_str(b, p0);
    let p1 = (dec_str(b, p0)->0).1;
    lemma_join(b, p, p0, p1);
}

proof fn lemma_back_register_skill(b: Seq<u8>, p: int)
    requires
        0 <= p <= b.len(),
        dec_op(b, p) is Some,
        (dec_u32(b, p)->0).0 == 47u32,
    ensures
        p < (dec_op(b, p)->0).1 <= b.len(),
        fits_op((dec_op(b, p)->0).0),
        b.subrange(p, (dec_op(b, p)->0).1) == enc_op((dec_op(b, p)->0).0),
    decreases b.len() - p, 1int,
{
    lemma_back_u32d(b, p);
    let p0 = p + 4;
    lemma_back_str(b, p0);
    let p1 = (dec_str(b, p0)->0).1;
    lemma_join(b, p, p0, p1);
}

proof fn lemma_back_alloc_memory_slot(b: Seq<u8>, p: int)
    requires
        0 <= p <= b.len(),
        dec_op(b, p) is Some,
        (dec_u32(b, p)->0).0 == 48u32,
    ensures
        p < (dec_op(b, p)->0).1 <= b.len(),
        fits_op((dec_op(b, p)->0).0),
        b.subrange(p, (dec_op(b, p)->0).1) == enc_op((dec_op(b, p)->0).0),
    decreases b.len() - p, 1int,
{
    lemma_back_u32d(b, p);
    let p0 = p + 4;
    lemma_back_str(b, p0);
    let p1 = (dec_str(b, p0)->0).1;
    lemma_join(b, p, p0, p1);
}

proof fn lemma_back_load_memory(b: Seq<u8>, p: int)
    requires
        0 <= p <= b.len(),
        dec_op(b, p) is Some,
        (dec_u32(b, p)->0).0 == 49u32,
    ensures
        p < (dec_op(b, p)->0).1 <= b.len(),
        fits_op((dec_op(b, p)->0).0),
        b.subrange(p, (dec_op(b, p)->0).1) == enc_op((dec_op(b, p)->0).0),
    decreases b.len() - p, 1int,
{
    lemma_back_u32d(b, p);
    let p0 = p + 4;
    lemma_back_str(b, p0);
    let p1 = (dec_str(b, p0)->0).1;
    lemma_join(b, p, p0, p1);
}

proof fn lemma_back_store_memory(b: Seq<u8>, p: int)
    requires
        0 <= p <= b.len(),
        dec_op(b, p) is Some,
        (dec_u32(b, p)->0).0 == 50u32,
    ensures
        p < (dec_op(b, p)->0).1 <= b.len(),
        fits_op((dec_op(b, p)->0).0),
        b.subrange(p, (dec_op(b, p)->0).1) == enc_op((dec_op(b, p)->0).0),
    decreases b.len() - p, 1int,
{
    lemma_back_u32d(b, p);
    let p0 = p + 4;
    lemma_back_str(b, p0);
    let p1 = (dec_str(b, p0)->0).1;
    lemma_join(b, p, p0, p1);
}

proof fn lemma_back_call_oracle(b: Seq<u8>, p: int)
    requires
        0 <= p <= b.len(),
        dec_op(b, p) is Some,
        (dec_u32(b, p)->0).0 == 51u32,
    ensures
        p < (dec_op(b, p)->0).1 <= b.len(),
        fits_op((dec_op(b, p)->0).0),
        b.subrange(p, (dec_op(b, p)->0).1) == enc_op((dec_op(b, p)->0).0),
    decreases b.len() - p, 1int,
{
    lemma_back_u32d(b, p);
    let p0 = p + 4;
    lemma_back_str(b, p0);
    let p1 = (dec_str(b, p0)->0).1;
    lemma_join(b, p, p0, p1);
    lemma_back_u8(b, p1);
    let p2 = (dec_u8(b, p1)->0).1;
    lemma_join(b, p, p1, p2);
}

proof fn lemma_back_begin_constraint(b: Seq<u8>, p: int)
    requires
        0 <= p <= b.len(),
        dec_op(b, p) is Some,
        (dec_u32(b, p)->0).0 == 52u32,
    ensures
        p < (dec_op(b, p)->0).1 <= b.len(),
        fits_op((dec_op(b, p)->0).0),
        b.subrange(p, (dec_op(b, p)->0).1) == enc_op((dec_op(b, p)->0).0),
    decreases b.len() - p, 1int,
{
    lemma_back_u32d(b, p);
    let p0 = p + 4;
    lemma_back_str(b, p0);
    let p1 = (dec_str(b, p0)->0).1;
    lemma_join(b, p, p0, p1);
}

proof fn lemma_back_end_constraint(b: Seq<u8>, p: int)
    requires
        0 <= p <= b.len(),
        dec_op(b, p) is Some,
        (dec_u32(b, p)->0).0 == 53u32,
    ensures
        p < (dec_op(b, p)->0).1 <= b.len(),
        fits_op((dec_op(b, p)->0).0),
        b.subrange(p, (dec_op(b, p)->0).1) == enc_op((dec_op(b, p)->0).0),
    decreases b.len() - p, 1int,
{
    lemma_back_u32d(b, p);
    let p0 = p + 4;
}

proof fn lemma_back_constraint_verify(b: Seq<u8>, p: int)
    requires
        0 <= p <= b.len(),
        dec_op(b, p) is Some,
        (dec_u32(b, p)->0).0 == 54u32,
    ensures
        p < (dec_op(b, p)->0).1 <= b.len(),
        fits_op((dec_op(b, p)->0).0),
        b.subrange(p, (dec_op(b, p)->0).1) == enc_op((dec_op(b, p)->0).0),
    decreases b.len() - p, 1int,
{
    lemma_back_u32d(b, p);
    let p0 = p + 4;
}

proof fn lemma_back_persist_load(b: Seq<u8>, p: int)
    requires
        0 <= p <= b.len(),
        dec_op(b, p) is Some,
        (dec_u32(b, p)->0).0 == 55u32,
    ensures
        p < (dec_op(b, p)->0).1 <= b.len(),
        fits_op((dec_op(b, p)->0).0),
        b.subrange(p, (dec_op(b, p)->0).1) == enc_op((dec_op(b, p)->0).0),
    decreases b.len() - p, 1int,
{
    lemma_back_u32d(b, p);
    let p0 = p + 4;
}

proof fn lemma_back_persist_save(b: Seq<u8>, p: int)
    requires
        0 <= p <= b.len(),
        dec_op(b, p) is Some,
        (dec_u32(b, p)->0).0 == 56u32,
    ensures
        p < (dec_op(b, p)->0).1 <= b.len(),
        fits_op((dec_op(b, p)->0).0),
        b.subrange(p, (dec_op(b, p)->0).1) == enc_op((dec_op(b, p)->0).0),
    decreases b.len() - p, 1int,
{
    lemma_back_u32d(b, p);
    let p0 = p + 4;
}

proof fn lemma_back_persist_delete(b: Seq<u8>, p: int)
    requires
        0 <= p <= b.len(),
        dec_op(b, p) is Some,
        (dec_u32(b, p)->0).0 == 57u32,
    ensures
        p < (dec_op(b, p)->0).1 <= b.len(),
        fits_op((dec_op(b, p)->0).0),
        b.subrange(p, (dec_op(b, p)->0).1) == enc_op((dec_op(b, p)->0).0),
    decreases b.len() - p, 1int,
{
    lemma_back_u32d(b, p);
    let p0 = p + 4;
}

proof fn lemma_back_store_lore(b: Seq<u8>, p: int)
    requires
        0 <= p <= b.len(),
        dec_op(b, p) is Some,
        (dec_u32(b, p)->0).0 == 58u32,
    ensures
        p < (dec_op(b, p)->0).1 <= b.len(),
        fits_op((dec_op(b, p)->0).0),
        b.subrange(p, (dec_op(b, p)->0).1) == enc_op((dec_op(b, p)->0).0),
    decreases b.len() - p, 1int,
{
    lemma_back_u32d(b, p);
    let p0 = p + 4;
    lemma_back_str(b, p0);
    let p1 = (dec_str(b, p0)->0).1;
    lemma_join(b, p, p0, p1);
    lemma_back_str(b, p1);
    let p2 = (dec_str(b, p1)->0).1;
    lemma_join(b, p, p1, p2);
}

proof fn lemma_back_load_lore(b: Seq<u8>, p: int)
    requires
        0 <= p <= b.len(),
        dec_op(b, p) is Some,
        (dec_u32(b, p)->0).0 == 59u32,
    ensures
        p < (dec_op(b, p)->0).1 <= b.len(),
        fits_op((dec_op(b, p)->0).0),
        b.subrange(p, (dec_op(b, p)->0).1) == enc_op((dec_op(b, p)->0).0),
    decreases b.len() - p, 1int,
{
    lemma_back_u32d(b, p);
    let p0 = p + 4;
    lemma_back_str(b, p0);
    let p1 = (dec_str(b, p0)->0).1;
    lemma_join(b, p, p0, p1);
}

proof fn lemma_back_ctx_share(b: Seq<u8>, p: int)
    requires
        0 <= p <= b.len(),
        dec_op(b, p) is Some,
        (dec_u32(b, p)->0).0 == 60u32,
    ensures
        p < (dec_op(b, p)->0).1 <= b.len(),
        fits_op((dec_op(b, p)->0).0),
        b.subrange(p, (dec_op(b, p)->0).1) == enc_op((dec_op(b, p)->0).0),
    decreases b.len() - p, 1int,
{
    lemma_back_u32d(b, p);
    let p0 = p + 4;
}

/// What `dec_ops_n` accepts from `p` is the encoding of the `n` instructions
/// it appends.
#[verifier::rlimit(50)]
#[verifier::spinoff_prover]
proof fn lemma_back_ops_n(b: Seq<u8>, p: int, n: nat, acc: Seq<OpV>)
    requires
        0 <= p <= b.len(),
        n <= u64::MAX,
        dec_ops_n(b, p, n, acc) is Some,
    ensures
        p <= (dec_ops_n(b, p, n, acc)->0).1 <= b.len(),
        (dec_ops_n(b, p, n, acc)->0).0.len() == acc.len() + n,
        (dec_ops_n(b, p, n, acc)->0).0.subrange(0, acc.len() as int) == acc,
        fits_ops((dec_ops_n(b, p, n, acc)->0).0.subrange(acc.len() as int, (acc.len() + n) as int)),
        b.subrange(p, (dec_ops_n(b, p, n, acc)->0).1) == ops_body(
            (dec_ops_n(b, p, n, acc)->0).0.subrange(acc.len() as int, (acc.len() + n) as int),
        ),
    decreases b.len() - p, 3int,
{
    let (r, q) = dec_ops_n(b, p, n, acc)->0;
    if n == 0 {
        assert(r.subrange(0, acc.len() as int) =~= acc);
        assert(r.subrange(acc.len() as int, (acc.len() + n) as int) =~= Seq::<OpV>::empty());
        assert(b.subrange(p, q) =~= Seq::<u8>::empty());
    } else {
        let (o, q0) = dec_op(b, p)->0;
        lemma_back_op(b, p);
        lemma_back_ops_n(b, q0, (n - 1) as nat, acc.push(o));
        lemma_join(b, p, q0, q);
        let tail = r.subrange(acc.len() as int, (acc.len() + n) as int);
        assert(r.subrange(0, acc.len() as int + 1) == acc.push(o));
        assert(r.subrange(0, acc.len() as int + 1)[acc.len() as int] == r[acc.len() as int]);
        assert(tail[0] == o);
        assert(tail.subrange(1, tail.len() as int) =~= r.subrange(acc.len() as int + 1, acc.len() + 1 + (n - 1) as int));
        assert(r.subrange(0, acc.len() as int) =~= r.subrange(0, acc.len() as int + 1).subrange(0, acc.len() as int));
    }
}

/// What `dec_ops` accepts at `p` is the encoding of the instructions it returns.
proof fn lemma_back_ops(b: Seq<u8>, p: int)
    requires
        0 <= p <= b.len(),
        dec_ops(b, p) is Some,
    ensures
        p < (dec_ops(b, p)->0).1 <= b.len(),
        fits_ops((dec_ops(b, p)->0).0),
        b.subrange(p, (dec_ops(b, p)->0).1) == enc_ops((dec_ops(b, p)->0).0),
    decreases b.len() - p, 0int,
{
    let n = u64_of(b, p);
    lemma_back_u64(b, p);
    lemma_back_ops_n(b, p + 8, n as nat, Seq::empty());
    let (r, q) = dec_ops(b, p)->0;
    assert(r.subrange(0, n as int) =~= r);
    lemma_join(b, p, p + 8, q);
}

/// What `dec_arms_n` accepts from `p` is the encoding of the `n` cases it
/// appends.
#[verifier::rlimit(80)]
#[verifier::spinoff_prover]
proof fn lemma_back_arms_n(b: Seq<u8>, p: int, n: nat, acc: Seq<(Seq<char>, Seq<char>, Seq<OpV>)>)
    requires
        0 <= p <= b.len(),
        n <= u64::MAX,
        dec_arms_n(b, p, n, acc) is Some,
    ensures
        p <= (dec_arms_n(b, p, n, acc)->0).1 <= b.len(),
        (dec_arms_n(b, p, n, acc)->0).0.len() == acc.len() + n,
        (dec_arms_n(b, p, n, acc)->0).0.subrange(0, acc.len() as int) == acc,
        fits_arms((dec_arms_n(b, p, n, acc)->0).0.subrange(acc.len() as int, (acc.len() + n) as int)),
        b.subrange(p, (dec_arms_n(b, p, n, acc)->0).1) == arms_body(
            (dec_arms_n(b, p, n, acc)->0).0.subrange(acc.len() as int, (acc.len() + n) as int),
        ),
    decreases b.len() - p, 0int,
{
    let (r, q) = dec_arms_n(b, p, n, acc)->0;
    if n == 0 {
        assert(r.subrange(0, acc.len() as int) =~= acc);
        assert(r.subrange(acc.len() as int, (acc.len() + n) as int) =~= Seq::<(Seq<char>, Seq<char>, Seq<OpV>)>::empty());
        assert(b.subrange(p, q) =~= Seq::<u8>::empty());
    } else {
        let (l, q0) = dec_str(b, p)->0;
        let (c, q1) = dec_str(b, q0)->0;
        let (body, q2) = dec_ops(b, q1)->0;
        let a = (l, c, body);
        lemma_back_str(b, p);
        lemma_back_str(b, q0);
        lemma_back_ops(b, q1);
        lemma_back_arms_n(b, q2, (n - 1) as nat, acc.push(a));
        lemma_join(b, p, q0, q1);
        lemma_join(b, p, q1, q2);
        lemma_join(b, p, q2, q);
        let tail = r.subrange(acc.len() as int, (acc.len() + n) as int);
        assert(r.subrange(0, acc.len() as int + 1) == acc.push(a));
        assert(r.subrange(0, acc.len() as int + 1)[acc.len() as int] == r[acc.len() as int]);
        assert(tail[0] == a);
        assert(tail.subrange(1, tail.len() as int) =~= r.subrange(acc.len() as int + 1, acc.len() + 1 + (n - 1) as int));
        assert(r.subrange(0, acc.len() as int) =~= r.subrange(0, acc.len() as int + 1).subrange(0, acc.len() as int));
    }
}

/// What `dec_arms` accepts at `p` is the encoding of the cases it returns.
proof fn lemma_back_arms(b: Seq<u8>, p: int)
    requires
        0 <= p <= b.len(),
        dec_arms(b, p) is Some,
    ensures
        p < (dec_arms(b, p)->0).1 <= b.len(),
        fits_arms((dec_arms(b, p)->0).0),
        b.subrange(p, (dec_arms(b, p)->0).1) == enc_arms((dec_arms(b, p)->0).0),
    decreases b.len() - p, 0int,
{
    let n = u64_of(b, p);
    lemma_back_u64(b, p);
    lemma_back_arms_n(b, p + 8, n as nat, Seq::empty());
    let (r, q) = dec_arms(b, p)->0;
    assert(r.subrange(0, n as int) =~= r);
    lemma_join(b, p, p + 8, q);
}

/// What `dec_kernel` accepts at `p` is the encoding of the kernel it returns.
#[verifier::rlimit(50)]
#[verifier::spinoff_prover]
proof fn lemma_back_kernel(b: Seq<u8>, p: int)
    requires
        0 <= p <= b.len(),
        dec_kernel(b, p) is Some,
    ensures
        p < (dec_kernel(b, p)->0).1 <= b.len(),
        fits_kernel((dec_kernel(b, p)->0).0),
        b.subrange(p, (dec_kernel(b, p)->0).1) == enc_kernel((dec_kernel(b, p)->0).0),
{
    let q0 = (dec_str(b, p)->0).1;
    lemma_back_str(b, p);
    let q1 = (dec_strs(b, q0)->0).1;
    lemma_back_strs(b, q0);
    let q2 = (dec_ops(b, q1)->0).1;
    lemma_back_ops(b, q1);
    let q3 = (dec_u8(b, q2)->0).1;
    lemma_back_u8(b, q2);
    lemma_join(b, p, q0, q1);
    lemma_join(b, p, q1, q2);
    lemma_join(b, p, q2, q3);
}

/// What `dec_kernels_n` accepts from `p` is the encoding of the `n` kernels
/// it appends.
#[verifier::rlimit(50)]
#[verifier::spinoff_prover]
proof fn lemma_back_kernels_n(b: Seq<u8>, p: int, n: nat, acc: Seq<KernelV>)
    requires
        0 <= p <= b.len(),
        dec_kernels_n(b, p, n, acc) is Some,
    ensures
        p <= (dec_kernels_n(b, p, n, acc)->0).1 <= b.len(),
        (dec_kernels_n(b, p, n, acc)->0).0.len() == acc.len() + n,
        (dec_kernels_n(b, p, n, acc)->0).0.subrange(0, acc.len() as int) == acc,
        forall|i: int|
            acc.len() <= i < acc.len() + n ==> fits_kernel(#[trigger] (dec_kernels_n(b, p, n, acc)->0).0[i]),
        b.subrange(p, (dec_kernels_n(b, p, n, acc)->0).1) == kernels_body(
            (dec_kernels_n(b, p, n, acc)->0).0.subrange(acc.len() as int, (acc.len() + n) as int),
        ),
    decreases n,
{
    let (r, q) = dec_kernels_n(b, p, n, acc)->0;
    if n == 0 {
        assert(r.subrange(0, acc.len() as int) =~= acc);
        assert(r.subrange(acc.len() as int, (acc.len() + n) as int) =~= Seq::<KernelV>::empty());
        assert(b.subrange(p, q) =~= Seq::<u8>::empty());
    } else {
        let (k, q0) = dec_kernel(b, p)->0;
        lemma_back_kernel(b, p);
        lemma_back_kernels_n(b, q0, (n - 1) as nat, acc.push(k));
        lemma_join(b, p, q0, q);
        let tail = r.subrange(acc.len() as int, (acc.len() + n) as int);
        assert(r.subrange(0, acc.len() as int + 1) == acc.push(k));
        assert(r.subrange(0, acc.len() as int + 1)[acc.len() as int] == r[acc.len() as int]);
        assert(tail[0] == k);
        assert(tail.subrange(1, tail.len() as int) =~= r.subrange(acc.len() as int + 1, acc.len() + 1 + (n - 1) as int));
        assert(r.subrange(0, acc.len() as int) =~= r.subrange(0, acc.len() as int + 1).subrange(0, acc.len() as int));
    }
}

/// Encoding gives back what was decoded: whatever program `decode_bytecode`
/// reads from the start of some bytes, those bytes are exactly the program's
/// encoding, and every length in it fits its prefix.
#[verifier::rlimit(50)]
#[verifier::spinoff_prover]
pub proof fn law_encode_decode(b: Seq<u8>)
    requires
        dec_bytecode(b) is Some,
    ensures
        fits_bytecode((dec_bytecode(b)->0).0),
        b.subrange(0, (dec_bytecode(b)->0).1) == enc_bytecode((dec_bytecode(b)->0).0),
{
    let (bc, q) = dec_bytecode(b)->0;
    lemma_back_u16d(b, 4);
    lemma_back_u64d(b, 6);
    let n = u64_of(b, 6);
    lemma_back_kernels_n(b, 14, n as nat, Seq::empty());
    let q2 = (dec_kernels_n(b, 14, n as nat, Seq::empty())->0).1;
    lemma_back_ops(b, q2);
    assert(bc.kernels.subrange(0, n as int) =~= bc.kernels);
    lemma_join(b, 0, 4, 6);
    lemma_join(b, 0, 6, 14);
    lemma_join(b, 0, 14, q2);
    lemma_join(b, 0, q2, q);
    assert forall|i: int| 0 <= i < bc.kernels.len() implies fits_kernel(#[trigger] bc.kernels[i]) by {}
}


// ── Encodings that fit ───────────────────────────────────────────────────────

/// Every string inside an encoded instruction list is shorter than the list;
/// so when the encoding's length fits a 64-bit prefix, so does every length
/// inside it.
proof fn lemma_fits_strs_body(ss: Seq<Seq<char>>)
    ensures
        strs_body(ss).len() >= 8 * ss.len(),
        forall|i: int| 0 <= i < ss.len() ==> enc_str(#[trigger] ss[i]).len() <= strs_body(ss).len(),
    decreases ss.len(),
{
    if ss.len() > 0 {
        let rest = ss.subrange(1, ss.len() as int);
        lemma_fits_strs_body(rest);
        assert forall|i: int| 0 <= i < ss.len() implies enc_str(#[trigger] ss[i]).len() <= strs_body(ss).len() by {
            if i > 0 {
                assert(ss[i] == rest[i - 1]);
            }
        }
    }
}

proof fn lemma_fits_strs(ss: Seq<Seq<char>>)
    requires
        enc_strs(ss).len() <= u64::MAX,
    ensures
        fits_strs(ss),
{
    lemma_fits_strs_body(ss);
}

#[verifier::rlimit(100)]
#[verifier::spinoff_prover]
proof fn lemma_fits_op(op: OpV)
    ensures
        enc_op(op).len() >= 4,
        enc_op(op).len() <= u64::MAX ==> fits_op(op),
    decreases op, 2int,
{
    match op {
        OpV::BranchClassify { var, cases, default } => {
            lemma_fits_arms(cases);
            lemma_fits_ops(default);
        },
        OpV::InferClassify(labels) => {
            lemma_fits_strs_body(labels);
        },
        OpV::StructConstruct { name, field_names } => {
            lemma_fits_strs_body(field_names);
        },
        _ => {},
    }
}

proof fn lemma_fits_ops_body(ops: Seq<OpV>)
    ensures
        ops_body(ops).len() >= 4 * ops.len(),
        ops_body(ops).len() <= u64::MAX ==> fits_ops(ops),
    decreases ops, 1int,
{
    if ops.len() > 0 {
        lemma_fits_op(ops[0]);
        lemma_fits_ops_body(ops.subrange(1, ops.len() as int));
    }
}

proof fn lemma_fits_ops(ops: Seq<OpV>)
    ensures
        enc_ops(ops).len() >= 8,
        enc_ops(ops).len() <= u64::MAX ==> fits_ops(ops),
    decreases ops, 2int,
{
    lemma_fits_ops_body(ops);
}

proof fn lemma_fits_arms_body(arms: Seq<(Seq<char>, Seq<char>, Seq<OpV>)>)
    ensures
        arms_body(arms).len() >= 24 * arms.len(),
        arms_body(arms).len() <= u64::MAX ==> fits_arms(arms),
    decreases arms, 1int,
{
    if arms.len() > 0 {
        lemma_fits_ops(arms[0].2);
        lemma_fits_arms_body(arms.subrange(1, arms.len() as int));
    }
}

proof fn lemma_fits_arms(arms: Seq<(Seq<char>, Seq<char>, Seq<OpV>)>)
    ensures
        enc_arms(arms).len() <= u64::MAX ==> fits_arms(arms),
    decreases arms, 2int,
{
    lemma_fits_arms_body(arms);
}

proof fn lemma_fits_kernel(k: KernelV)
    ensures
        enc_kernel(k).len() >= 25,
        enc_kernel(k).len() <= u64::MAX ==> fits_kernel(k),
{
    lemma_fits_strs_body(k.params);
    lemma_fits_ops(k.body);
}

proof fn lemma_fits_kernels_body(ks: Seq<KernelV>)
    ensures
        kernels_body(ks).len() >= 25 * ks.len(),
        forall|i: int| 0 <= i < ks.len() ==> enc_kernel(#[trigger] ks[i]).len() <= kernels_body(ks).len(),
    decreases ks.len(),
{
    if ks.len() > 0 {
        let rest = ks.subrange(1, ks.len() as int);
        lemma_fits_kernel(ks[0]);
        lemma_fits_kernels_body(rest);
        assert forall|i: int| 0 <= i < ks.len() implies enc_kernel(#[trigger] ks[i]).len() <= kernels_body(ks).len() by {
            if i > 0 {
                assert(ks[i] == rest[i - 1]);
            }
        }
    }
}

/// A program with the four-byte header whose whole encoding is no longer
/// than a 64-bit length has every length inside it fit its prefix.
proof fn lemma_fits_bytecode(bc: BytecodeV)
    requires
        bc.magic.len() == 4,
        enc_bytecode(bc).len() <= u64::MAX,
    ensures
        fits_bytecode(bc),
{
    lemma_fits_kernels_body(bc.kernels);
    lemma_fits_ops(bc.instructions);
    assert forall|i: int| 0 <= i < bc.kernels.len() implies fits_kernel(#[trigger] bc.kernels[i]) by {
        lemma_fits_kernel(bc.kernels[i]);
    }
}

/// A program whose encoding fits a 64-bit length decodes from its own
/// bytes: what the compiler writes, the machine reads.
pub proof fn law_encoded_program_decodes(bc: BytecodeV)
    requires
        bc.magic.len() == 4,
        enc_bytecode(bc).len() <= u64::MAX,
    ensures
        dec_bytecode(enc_bytecode(bc)) == Some((bc, enc_bytecode(bc).len() as int)),
{
    lemma_fits_bytecode(bc);
    law_decode_encode(bc, Seq::empty());
    assert(enc_bytecode(bc) + Seq::<u8>::empty() =~= enc_bytecode(bc));
}

} // verus!
