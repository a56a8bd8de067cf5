//! Wispee: a compiled language for programming language-model agents.
//!
//! The library holds the compiler (lexer, parser, semantic analysis, code
//! generation and the bytecode wire format) and the stack-based virtual
//! machine with its token heap.
use vstd::prelude::*;
use crate::lexer::{LexError, lex_spec, tokenize};
use crate::parser::{ParseError, parse, spec_items, spec_program};
use crate::semantic::{SemanticError, SemErrV, analyze, chk_program, sem_err_view, typed_ok, TypedAst};
use crate::codegen::{CodegenError, CgErrV, cg_err_view, generate, spec_bytecode};
use crate::wire::{enc_bytecode, dec_bytecode, law_encoded_program_decodes};
use crate::vm::{MachineV, Exchange, program_run};
use crate::opcodes::bytecode_magic;

pub mod ast;
pub mod backend;
pub mod codegen;
pub mod fmt;
pub mod heap;
pub mod lexer;
pub mod opcodes;
pub mod parser;
pub mod project;
pub mod resolve;
pub mod semantic;
pub mod store;
pub mod table;
pub mod text;
pub mod value;
pub mod vm;
pub mod wire;

verus! {

/// Why a source text did not compile.
pub enum CompileError {
    /// No lexeme starts at this character position.
    Lex(LexError),
    /// The tokens do not form a program; parsing stopped at this token.
    Parse(ParseError),
    Semantic(SemanticError),
    Codegen(CodegenError),
}

pub enum CompileErrV {
    Lex(usize),
    Parse(usize),
    Semantic(SemErrV),
    Codegen(CgErrV),
}

pub open spec fn compile_err_view(e: CompileError) -> CompileErrV {
    match e {
        CompileError::Lex(l) => CompileErrV::Lex(l.position),
        CompileError::Parse(p) => CompileErrV::Parse(p.position),
        CompileError::Semantic(s) => CompileErrV::Semantic(sem_err_view(s)),
        CompileError::Codegen(c) => CompileErrV::Codegen(cg_err_view(c)),
    }
}

/// What compiling `src` gives: the stages in turn, each on what the one
/// before produced, and the encoded program at the end.
pub open spec fn compiles_to(src: Seq<char>, out: Result<Seq<u8>, CompileErrV>) -> bool {
    match lex_spec(src) {
        None => out == Err::<Seq<u8>, CompileErrV>(CompileErrV::Lex(crate::lexer::lex_fail_from(src, 0) as usize)),
        Some(ts) => match spec_program(ts) {
            None => out == Err::<Seq<u8>, CompileErrV>(CompileErrV::Parse(spec_items(ts, Seq::empty(), 0).1 as usize)),
            Some(items) => match chk_program(items) {
                Some(e) => out == Err::<Seq<u8>, CompileErrV>(CompileErrV::Semantic(e)),
                None => exists|t: TypedAst|
                    #![trigger typed_ok(t, items)]
                    typed_ok(t, items) && match spec_bytecode(t) {
                        Ok(bc) => out == Ok::<Seq<u8>, CompileErrV>(enc_bytecode(bc)),
                        Err(e) => out == Err::<Seq<u8>, CompileErrV>(CompileErrV::Codegen(e)),
                    },
            },
        },
    }
}

/// At most one outcome meets [`compiles_to`]: compilation is a function of
/// the source text.
pub proof fn law_compile_deterministic(src: Seq<char>, a: Result<Seq<u8>, CompileErrV>, b: Result<Seq<u8>, CompileErrV>)
    requires
        compiles_to(src, a),
        compiles_to(src, b),
    ensures
        a == b,
{
    if let Some(ts) = lex_spec(src) {
        if let Some(items) = spec_program(ts) {
            if chk_program(items) is None {
                let ta = choose|t: TypedAst| #![trigger typed_ok(t, items)]
                    typed_ok(t, items) && match spec_bytecode(t) {
                        Ok(bc) => a == Ok::<Seq<u8>, CompileErrV>(enc_bytecode(bc)),
                        Err(e) => a == Err::<Seq<u8>, CompileErrV>(CompileErrV::Codegen(e)),
                    };
                let tb = choose|t: TypedAst| #![trigger typed_ok(t, items)]
                    typed_ok(t, items) && match spec_bytecode(t) {
                        Ok(bc) => b == Ok::<Seq<u8>, CompileErrV>(enc_bytecode(bc)),
                        Err(e) => b == Err::<Seq<u8>, CompileErrV>(CompileErrV::Codegen(e)),
                    };
                crate::codegen::lemma_bytecode_determined(ta, tb, items);
            }
        }
    }
}

/// Every program that `compile` produces, the virtual machine accepts: its
/// bytes decode, to the last byte, to the program generated from the
/// source, so running them never fails as undecodable.
#[verifier::rlimit(100)]
#[verifier::spinoff_prover]
pub proof fn law_compiled_program_decodes(src: Seq<char>, bytes: Seq<u8>)
    requires
        compiles_to(src, Ok(bytes)),
        bytes.len() <= u64::MAX,
    ensures
        dec_bytecode(bytes) matches Some((bc, n)) && n == bytes.len() && enc_bytecode(bc) == bytes,
        forall|m: MachineV, log: Seq<Exchange>| #[trigger] program_run(bytes, m, log) is Some,
{
    let ts = lex_spec(src)->0;
    let items = spec_program(ts)->0;
    let t = choose|t: TypedAst| #![trigger typed_ok(t, items)]
        typed_ok(t, items) && match spec_bytecode(t) {
            Ok(bc) => Ok::<Seq<u8>, CompileErrV>(bytes) == Ok::<Seq<u8>, CompileErrV>(enc_bytecode(bc)),
            Err(e) => Ok::<Seq<u8>, CompileErrV>(bytes) == Err::<Seq<u8>, CompileErrV>(CompileErrV::Codegen(e)),
        };
    let bc = spec_bytecode(t)->Ok_0;
    assert(bc.magic.len() == 4);
    law_encoded_program_decodes(bc);
}

/// Compiles Wispee source text to the bytes of a program: tokenise, parse,
/// analyse, generate and encode. A compiled program starts with the four
/// magic bytes `WSPW`.
#[verifier::rlimit(50)]
pub fn compile(source: &str) -> (r: Result<Vec<u8>, CompileError>)
    ensures
        compiles_to(
            source@,
            match r {
                Ok(bytes) => Ok(bytes@),
                Err(e) => Err(compile_err_view(e)),
            },
        ),
        r matches Ok(bytes) ==> bytes@.len() >= 4 && bytes@.subrange(0, 4) == bytecode_magic(),
{
    let tokens = match tokenize(source) {
        Ok(t) => t,
        Err(e) => {
            return Err(CompileError::Lex(e));
        },
    };
    let items = match parse(tokens) {
        Ok(i) => i,
        Err(e) => {
            return Err(CompileError::Parse(e));
        },
    };
    let ghost iv = crate::ast::items_view(items@);
    let typed = match analyze(items) {
        Ok(t) => t,
        Err(e) => {
            return Err(CompileError::Semantic(e));
        },
    };
    match generate(&typed) {
        Ok(bytes) => {
            proof {
                let bc = spec_bytecode(typed)->Ok_0;
                assert(bytes@.subrange(0, 4) =~= bc.magic);
            }
            Ok(bytes)
        },
        Err(e) => Err(CompileError::Codegen(e)),
    }
}

/// The text of a compilation error.
pub open spec fn compile_error_text(e: CompileErrV) -> Seq<char> {
    match e {
        CompileErrV::Lex(p) => "lex error at character "@ + crate::text::nat_digits(p as nat),
        CompileErrV::Parse(p) => "parse error at token "@ + crate::text::nat_digits(p as nat),
        CompileErrV::Semantic(s) => crate::semantic::semantic_error_text(s),
        CompileErrV::Codegen(c) => crate::codegen::codegen_error_text(c),
    }
}

impl CompileError {
    /// The error's text (see [`compile_error_text`]).
    pub fn message(&self) -> (r: String)
        ensures
            r@ == compile_error_text(compile_err_view(*self)),
    {
        match self {
            CompileError::Lex(e) => {
                let d = crate::text::u64_to_string(e.position as u64);
                crate::text::concat2("lex error at character ", d.as_str())
            },
            CompileError::Parse(e) => {
                let d = crate::text::u64_to_string(e.position as u64);
                crate::text::concat2("parse error at token ", d.as_str())
            },
            CompileError::Semantic(e) => e.message(),
            CompileError::Codegen(e) => e.message(),
        }
    }
}

} // verus!
