use wispee::backend::SimulatedBackend;
use wispee::compile;
use wispee::opcodes::{Bytecode, OpCode};
use wispee::store::InMemoryPersistentStore;
use wispee::vm::{Vm, VmError};
use wispee::wire::encode_bytecode;

fn make_vm() -> Vm<SimulatedBackend, InMemoryPersistentStore> {
    Vm::new(4096, SimulatedBackend::new("ok"))
}

fn compiled(src: &str) -> Vec<u8> {
    match compile(src) {
        Ok(b) => b,
        Err(e) => panic!("{}", e.message()),
    }
}

#[test]
fn vm_executes_println() {
    let bc = Bytecode::new(
        vec![],
        vec![OpCode::PushStr("hello from vm".to_string()), OpCode::Println, OpCode::Halt],
    );
    let bytes = encode_bytecode(&bc);
    let mut vm = make_vm();
    vm.execute(&bytes).unwrap();
    assert_eq!(vm.output(), &vec!["hello from vm".to_string()]);
}

#[test]
fn vm_executes_hello_la() {
    let src = r#"
fn main() {
    let ctx = ctx_alloc(512);
    ctx_append(ctx, "Hello, L-Agent!");
    println("Hello, L-Agent!");
    ctx_free(ctx);
}
"#;
    let bytes = compiled(src);
    let mut vm = make_vm();
    vm.execute(&bytes).unwrap();
    assert_eq!(vm.output(), &vec!["Hello, L-Agent!".to_string()]);
}

#[test]
fn vm_ctx_alloc_and_free_balance_heap() {
    let bc = Bytecode::new(vec![], vec![OpCode::CtxAlloc(256), OpCode::CtxFreeStack, OpCode::Halt]);
    let bytes = encode_bytecode(&bc);
    let mut vm = make_vm();
    vm.execute(&bytes).unwrap();
    assert_eq!(vm.heap().used(), 0);
}

#[test]
fn vm_executes_emotion_analysis() {
    let src = r#"
type Emotion = semantic("joie", "colère", "tristesse", "neutre");

kernel AnalyserMessage(texte: str) -> Emotion {
    observe(texte);
    reason("Déterminer l'émotion dominante");
    let emotion: Emotion = infer(texte);
    verify(emotion != "neutre");
    return emotion;
}

fn main() {
    let ctx = ctx_alloc(4096);
    ctx_append(ctx, "Je suis très mécontent !");

    branch intent {
        case "angry" (confidence > 0.7) => {
            println("Gestion de crise activée");
        }
        case "help" (confidence > 0.4) => {
            println("Support standard");
        }
        default => {
            println("Redirection vers un opérateur humain");
        }
    }

    ctx_free(ctx);
}
"#;
    let bytes = compiled(src);
    let mut vm = make_vm();
    vm.execute(&bytes).unwrap();
    // Two labels, each at confidence 1/2: "help" (0.5 >= 0.4) is taken.
    assert_eq!(vm.output(), &vec!["Support standard".to_string()]);
}

#[test]
fn vm_executes_kernel_call() {
    let src = r#"
type Sentiment = semantic("positive", "negative", "neutral");

kernel AnalyseSentiment(text: str) -> Sentiment {
    observe(text);
    reason("Classify the sentiment of the input text");
    let result: Sentiment = infer(text);
    verify(result != "");
    return result;
}

fn main() {
    let ctx = ctx_alloc(1024);
    ctx_append(ctx, "This product is absolutely fantastic!");
    let sentiment = AnalyseSentiment(ctx);
    println(sentiment);
    ctx_free(ctx);
}
"#;
    let bytes = compiled(src);
    let mut vm = make_vm();
    vm.execute(&bytes).unwrap();
    // Uniform scores: the last of the equal maxima wins.
    assert_eq!(vm.output(), &vec!["neutral".to_string()]);
}

#[test]
fn vm_verify_retry_exhaustion_returns_error() {
    let src = r#"
kernel AlwaysFail(x: str) -> str {
    verify(0);
    return x;
}
fn main() {
    let result = AlwaysFail("test");
    println(result);
}
"#;
    let bytes = compiled(src);
    let err = make_vm().execute(&bytes).unwrap_err();
    assert!(err.message().contains("VerifyFail"));
}

#[test]
fn vm_ctx_compress_replaces_content() {
    let src = r#"
fn main() {
    let ctx = ctx_alloc(1024);
    ctx_append(ctx, "Hello world this is a long string");
    ctx_compress(ctx);
    ctx_free(ctx);
}
"#;
    let bytes = compiled(src);
    make_vm().execute(&bytes).unwrap();
}

#[test]
fn compress_keeps_first_half() {
    let bc = Bytecode::new(
        vec![],
        vec![
            OpCode::CtxAlloc(64),
            OpCode::CtxShare,
            OpCode::CtxShare,
            OpCode::PushStr("abcdefgh".to_string()),
            OpCode::CtxAppendStack,
            OpCode::CtxCompress,
            OpCode::Halt,
        ],
    );
    let mut vm = make_vm();
    vm.execute(&encode_bytecode(&bc)).unwrap();
    assert_eq!(vm.heap().get(0).unwrap().content, "abcd");
}

#[test]
fn vm_interruptible_block_executes_normally() {
    let src = "\nfn main() {\n    interruptible {\n        println(\"inside interruptible\");\n    }\n}\n";
    let bytes = compiled(src);
    let mut vm = make_vm();
    vm.execute(&bytes).unwrap();
    assert_eq!(vm.output(), &vec!["inside interruptible".to_string()]);
}

#[test]
fn vm_branch_default_fires_when_no_case_matches() {
    let src = r#"
fn main() {
    branch intent {
        case "angry" (confidence > 0.9) => {
            println("crise");
        }
        case "help" (confidence > 0.9) => {
            println("support");
        }
        default => {
            println("default");
        }
    }
}
"#;
    let bytes = compiled(src);
    let mut vm = make_vm();
    vm.execute(&bytes).unwrap();
    assert_eq!(vm.output(), &vec!["default".to_string()]);
}

#[test]
fn vm_executes_oracle_call() {
    let src = r#"
oracle FetchContext(url: str) -> str;
fn main() {
    let r = FetchContext("http://example.com");
    println(r);
}
"#;
    let bytes = compiled(src);
    let mut vm = make_vm();
    vm.execute(&bytes).unwrap();
    assert_eq!(vm.output(), &vec!["<oracle:FetchContext>".to_string()]);
}

#[test]
fn vm_memory_slot_persists() {
    let src = "\nmemory Counter: str = \"initial\";\nfn main() {\n    println(Counter);\n}\n";
    let bytes = compiled(src);
    let mut vm = make_vm();
    vm.execute(&bytes).unwrap();
    assert_eq!(vm.output(), &vec!["initial".to_string()]);
}

#[test]
fn vm_executes_agent_soul() {
    let src = r#"
type Mood = semantic("happy", "sad", "neutral");

soul {
    instruction "You are a helpful sentiment analysis agent.";
}

lore Background = "This agent analyses user-provided text.";

memory LastResult: str = "";

oracle FetchContext(url: str) -> str;

skill AnalyseMood(text: str) -> Mood {
    observe(text);
    reason("Classify the mood of the text");
    let result: Mood = infer(text);
    verify(result != "");
    return result;
}

fn main() {
    let ctx = ctx_alloc(1024);
    ctx_append(ctx, "I love this project, it is amazing!");
    let mood = AnalyseMood(ctx);
    println(mood);
    ctx_free(ctx);
}
"#;
    let bytes = compiled(src);
    make_vm().execute(&bytes).unwrap();
}

#[test]
fn constraint_violation_is_non_retriable() {
    let src = "\nconstraint NonEmpty {\n    verify(0);\n}\n\nfn main() {\n    apply NonEmpty;\n}\n";
    let bytes = compiled(src);
    let err = make_vm().execute(&bytes).unwrap_err();
    assert!(err.message().contains("ConstraintViolation"), "expected ConstraintViolation, got: {}", err.message());
}

#[test]
fn constraint_passes_when_condition_holds() {
    let src = "\nconstraint AlwaysOk {\n    verify(1);\n}\n\nfn main() {\n    apply AlwaysOk;\n    println(\"passed\");\n}\n";
    let bytes = compiled(src);
    let mut vm = make_vm();
    vm.execute(&bytes).unwrap();
    assert_eq!(vm.output(), &vec!["passed".to_string()]);
}

#[test]
fn persistent_store_load_returns_default_when_absent() {
    let src = "\nfn main() {\n    let v = memory_load(\"missing_key\");\n    println(v);\n}\n";
    let bytes = compiled(src);
    let mut vm = make_vm();
    vm.execute(&bytes).unwrap();
    assert_eq!(vm.output(), &vec!["".to_string()]);
}

#[test]
fn persistent_store_save_and_load() {
    let src = "\nfn main() {\n    memory_save(\"key\", \"hello\");\n    let v = memory_load(\"key\");\n    println(v);\n}\n";
    let bytes = compiled(src);
    let store = InMemoryPersistentStore::new();
    let mut vm = Vm::new(4096, SimulatedBackend::new("ok")).with_persistent_store(store);
    vm.execute(&bytes).unwrap();
    assert_eq!(vm.output(), &vec!["hello".to_string()]);
}

#[test]
fn persistent_store_delete_removes_key() {
    let src = "\nfn main() {\n    memory_save(\"k\", \"v\");\n    memory_delete(\"k\");\n    let v = memory_load(\"k\");\n    println(v);\n}\n";
    let bytes = compiled(src);
    let store = InMemoryPersistentStore::new();
    let mut vm = Vm::new(4096, SimulatedBackend::new("ok")).with_persistent_store(store);
    vm.execute(&bytes).unwrap();
    assert_eq!(vm.output(), &vec!["".to_string()]);
}

#[test]
fn apply_stmt_parses_and_runs() {
    let src = "\nconstraint Positive {\n    verify(1);\n}\n\nfn main() {\n    apply Positive;\n    println(\"ok\");\n}\n";
    let bytes = compiled(src);
    let mut vm = make_vm();
    vm.execute(&bytes).unwrap();
    assert_eq!(vm.output(), &vec!["ok".to_string()]);
}

#[test]
fn vm_executes_empty_program() {
    let bytecode = compile("").ok().expect("compiler failed");
    let mut vm = Vm::new(4096, SimulatedBackend::new("ok"));
    assert!(vm.execute(&bytecode).is_ok());
}

#[test]
fn vm_accepts_minimal_heap_size() {
    let bytecode = compile("").ok().expect("compiler failed");
    let mut vm = Vm::new(1, SimulatedBackend::new(""));
    assert!(vm.execute(&bytecode).is_ok());
}

#[test]
fn heap_overflow_is_reported() {
    let bc = Bytecode::new(vec![], vec![OpCode::CtxAlloc(8), OpCode::Halt]);
    let mut vm = Vm::new(4, SimulatedBackend::new("ok"));
    let err = vm.execute(&encode_bytecode(&bc)).unwrap_err();
    assert_eq!(err.message(), "context overflow: requested 8 tokens but only 4 available");
}

#[test]
fn undecodable_bytes_are_rejected() {
    let mut vm = make_vm();
    let err = vm.execute(&vec![1, 2, 3]).unwrap_err();
    assert!(matches!(err, VmError::Decode));
}

#[test]
fn arithmetic_and_comparison() {
    let bc = Bytecode::new(
        vec![],
        vec![
            OpCode::PushInt(7),
            OpCode::PushInt(5),
            OpCode::Sub,
            OpCode::PushInt(3),
            OpCode::Mul,
            OpCode::Println,
            OpCode::PushInt(2),
            OpCode::PushInt(9),
            OpCode::CmpLt,
            OpCode::Println,
            OpCode::PushInt(1),
            OpCode::PushInt(0),
            OpCode::Div,
            OpCode::Halt,
        ],
    );
    let mut vm = make_vm();
    let err = vm.execute(&encode_bytecode(&bc)).unwrap_err();
    assert!(matches!(err, VmError::DivisionByZero));
    assert_eq!(vm.output(), &vec!["6".to_string(), "1".to_string()]);
}

#[test]
fn vectors_are_shared_between_holders() {
    let bc = Bytecode::new(
        vec![],
        vec![
            OpCode::PushInt(1),
            OpCode::PushInt(2),
            OpCode::VecNew(2),
            OpCode::StoreLocal("v".to_string()),
            OpCode::LoadLocal("v".to_string()),
            OpCode::PushInt(0),
            OpCode::PushStr("x".to_string()),
            OpCode::VecSet,
            OpCode::LoadLocal("v".to_string()),
            OpCode::PushInt(3),
            OpCode::VecPush,
            OpCode::LoadLocal("v".to_string()),
            OpCode::Println,
            OpCode::LoadLocal("v".to_string()),
            OpCode::VecLen,
            OpCode::Println,
            OpCode::Halt,
        ],
    );
    let mut vm = make_vm();
    vm.execute(&encode_bytecode(&bc)).unwrap();
    assert_eq!(vm.output(), &vec!["[x, 2, 3]".to_string(), "3".to_string()]);
}

#[test]
fn structs_tuples_and_variants_print() {
    let bc = Bytecode::new(
        vec![],
        vec![
            OpCode::PushStr("Ann".to_string()),
            OpCode::PushInt(3),
            OpCode::StructConstruct { name: "User".to_string(), field_names: vec!["name".to_string(), "age".to_string()] },
            OpCode::StoreLocal("u".to_string()),
            OpCode::LoadLocal("u".to_string()),
            OpCode::Println,
            OpCode::LoadLocal("u".to_string()),
            OpCode::FieldAccess("age".to_string()),
            OpCode::PushBool(true),
            OpCode::TuplePack(2),
            OpCode::Println,
            OpCode::PushInt(4),
            OpCode::EnumVariant { variant: "Some".to_string(), payload: true },
            OpCode::Println,
            OpCode::Halt,
        ],
    );
    let mut vm = make_vm();
    vm.execute(&encode_bytecode(&bc)).unwrap();
    assert_eq!(
        vm.output(),
        &vec!["User {name: Ann, age: 3}".to_string(), "(3, true)".to_string(), "Some(4)".to_string()]
    );
}

#[test]
fn memory_save_without_store_is_ignored() {
    let src = "\nfn main() {\n    memory_save(\"key\", \"hello\");\n    let v = memory_load(\"key\");\n    println(v);\n}\n";
    let bytes = compiled(src);
    let mut vm = make_vm();
    vm.execute(&bytes).unwrap();
    assert_eq!(vm.output(), &vec!["".to_string()]);
}

#[test]
fn branch_tie_at_threshold_runs_default() {
    let src = r#"
fn main() {
    branch intent {
        case "a" (confidence > 0.5) => {
            println("A");
        }
        case "b" (confidence > 0.5) => {
            println("B");
        }
        default => {
            println("D");
        }
    }
}
"#;
    let bytes = compiled(src);
    let mut vm = make_vm();
    vm.execute(&bytes).unwrap();
    assert_eq!(vm.output(), &vec!["D".to_string()]);
}

#[test]
fn branch_case_above_threshold_runs() {
    let src = r#"
fn main() {
    branch intent {
        case "a" (confidence > 0.49) => {
            println("A");
        }
        default => {
            println("D");
        }
    }
}
"#;
    let bytes = compiled(src);
    let mut vm = make_vm();
    vm.execute(&bytes).unwrap();
    assert_eq!(vm.output(), &vec!["A".to_string()]);
}

#[test]
fn error_inside_interruptible_block_restores_and_resumes_after_it() {
    let src = r#"
fn main() {
    let zero = 0;
    interruptible {
        println("inside");
        let b = 1 / zero;
        println("unreached");
    }
    println("after");
}
"#;
    let bytes = compiled(src);
    let mut vm = make_vm();
    vm.execute(&bytes).unwrap();
    assert_eq!(vm.output(), &vec!["inside".to_string(), "after".to_string()]);
}

#[test]
fn error_after_interruptible_block_is_reported() {
    let src = r#"
fn main() {
    let zero = 0;
    interruptible {
        println("inside");
    }
    let b = 1 / zero;
    println("unreached");
}
"#;
    let bytes = compiled(src);
    let mut vm = make_vm();
    assert!(matches!(vm.execute(&bytes), Err(VmError::DivisionByZero)));
}
