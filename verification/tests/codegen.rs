use wispee::codegen::{generate, generate_lib, CodegenError};
use wispee::lexer::tokenize;
use wispee::opcodes::{Bytecode, OpCode};
use wispee::parser::parse;
use wispee::semantic::analyze;
use wispee::wire::decode_bytecode;

fn compile_full(src: &str) -> Bytecode {
    let tokens = tokenize(src).unwrap();
    let items = match parse(tokens) {
        Ok(items) => items,
        Err(e) => panic!("parse error at token {}", e.position),
    };
    let typed = match analyze(items) {
        Ok(t) => t,
        Err(e) => panic!("{}", e.message()),
    };
    let bytes = match generate(&typed) {
        Ok(b) => b,
        Err(e) => panic!("{}", e.message()),
    };
    decode_bytecode(&bytes).unwrap()
}

fn compile_ops(src: &str) -> Vec<OpCode> {
    compile_full(src).instructions
}

#[test]
fn mod_compiles_hello_la() {
    let src = r#"
fn main() {
    let ctx = ctx_alloc(512);
    ctx_append(ctx, "Hello, L-Agent!");
    println("Hello, L-Agent!");
    ctx_free(ctx);
}
"#;
    let ops = compile_ops(src);
    assert!(ops.iter().any(|o| matches!(o, OpCode::CtxAlloc(512))));
    assert!(ops.iter().any(|o| matches!(o, OpCode::StoreLocal(n) if n == "ctx")));
    assert!(ops.iter().any(|o| matches!(o, OpCode::Println)));
    assert!(ops.iter().any(|o| matches!(o, OpCode::CtxFreeStack)));
    assert!(matches!(ops.last(), Some(OpCode::Halt)));
}

#[test]
fn mod_empty_fn_emits_halt() {
    let ops = compile_ops("fn main() {}");
    assert_eq!(ops.len(), 1);
    assert!(matches!(ops[0], OpCode::Halt));
}

#[test]
fn mod_compiles_kernel_into_table() {
    let src = r#"
type Sentiment = semantic("positive", "negative");
kernel Classify(text: str) -> Sentiment {
    observe(text);
    let r: Sentiment = infer(text);
    verify(r != "");
    return r;
}
fn main() {}
"#;
    let bc = compile_full(src);
    assert_eq!(bc.kernels.len(), 1);
    assert_eq!(bc.kernels[0].name, "Classify");
    assert_eq!(bc.kernels[0].params, vec!["text"]);
    assert!(bc.kernels[0].body.iter().any(|o| matches!(o, OpCode::Observe)));
    assert!(bc.kernels[0].body.iter().any(|o| matches!(o, OpCode::VerifyStep)));
    assert!(bc.kernels[0]
        .body
        .iter()
        .any(|o| matches!(o, OpCode::InferClassify(labels) if labels == &["positive", "negative"])));
}

#[test]
fn mod_compiles_kernel_call() {
    let src = r#"
type Sentiment = semantic("positive", "negative");
kernel Classify(text: str) -> Sentiment {
    let r: Sentiment = infer(text);
    return r;
}
fn main() {
    let ctx = ctx_alloc(256);
    let result = Classify(ctx);
    println(result);
    ctx_free(ctx);
}
"#;
    let bc = compile_full(src);
    assert_eq!(bc.kernels.len(), 1);
    assert!(bc.instructions.iter().any(|o| matches!(o, OpCode::CallKernel(0))));
}

#[test]
fn mod_compiles_interruptible_block() {
    let ops = compile_ops(r#"fn main() { interruptible { println("safe"); } }"#);
    assert!(ops.iter().any(|o| matches!(o, OpCode::BeginInterruptible)));
    assert!(ops.iter().any(|o| matches!(o, OpCode::EndInterruptible)));
}

#[test]
fn mod_compiles_ctx_compress() {
    let ops = compile_ops("fn main() { let ctx = ctx_alloc(1024); ctx_compress(ctx); ctx_free(ctx); }");
    assert!(ops.iter().any(|o| matches!(o, OpCode::CtxCompress)));
}

#[test]
fn compiles_agent_soul() {
    let src = "\nsoul {\n    instruction \"You are a helpful agent.\";\n}\nfn main() {}\n";
    let ops = compile_ops(src);
    assert!(ops.iter().any(|o| matches!(o, OpCode::SetAgentMeta(_))));
    assert!(ops.iter().any(|o| matches!(o, OpCode::CtxAppendLiteral(_))));
}

#[test]
fn compiles_lore_and_memory() {
    let src = "\nlore Background = \"Some lore text.\";\nmemory LastResult: str = \"\";\nfn main() {}\n";
    let ops = compile_ops(src);
    assert!(ops.iter().any(|o| matches!(o, OpCode::StoreLore(n, _) if n == "Background")));
    assert!(ops.iter().any(|o| matches!(o, OpCode::AllocMemorySlot(n) if n == "LastResult")));
}

#[test]
fn compiles_spell_into_kernel_table() {
    let src = "\nspell Greet(name: str) -> str {\n    return name;\n}\nfn main() {}\n";
    let bc = compile_full(src);
    assert_eq!(bc.kernels.len(), 1);
    assert_eq!(bc.kernels[0].name, "Greet");
}

#[test]
fn compiles_oracle_call() {
    let src = r#"
oracle Lookup(q: str) -> str;
fn main() {
    let r = Lookup("test");
    println(r);
}
"#;
    let ops = compile_ops(src);
    assert!(ops.iter().any(|o| matches!(o, OpCode::CallOracle(n, 1) if n == "Lookup")));
}

#[test]
fn break_outside_loop_is_rejected() {
    let tokens = tokenize("fn main() { break; }").unwrap();
    let items = parse(tokens).ok().unwrap();
    let typed = analyze(items).ok().unwrap();
    match generate(&typed) {
        Err(e) => {
            assert!(matches!(e, CodegenError::BreakOutsideLoop));
            assert_eq!(e.message(), "`break` outside of loop");
        },
        Ok(_) => panic!("expected an error"),
    }
}

#[test]
fn library_bundle_lists_pub_items() {
    let src = "\npub spell Greet(name: str) -> str {\n    return name;\n}\npub lore Intro = \"hi\";\nfn main() {}\n";
    let tokens = tokenize(src).unwrap();
    let items = parse(tokens).ok().unwrap();
    let typed = analyze(items).ok().unwrap();
    let bytes = generate_lib(&typed, "greet").ok().unwrap();
    assert_eq!(&bytes[0..4], b"LALB");
    // version 1, then the name "greet" with its 8-byte length
    assert_eq!(&bytes[4..6], &[1, 0]);
    assert_eq!(&bytes[6..14], &[5, 0, 0, 0, 0, 0, 0, 0]);
    assert_eq!(&bytes[14..19], b"greet");
    assert_eq!(&bytes[19..23], b"WSPW");
}
