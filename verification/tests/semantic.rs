use wispee::lexer::tokenize;
use wispee::parser::parse;
use wispee::semantic::{analyze, ConstValue, SemanticError, TypedAst};

fn compile_src(src: &str) -> Result<TypedAst, SemanticError> {
    let tokens = tokenize(src).unwrap();
    let items = match parse(tokens) {
        Ok(items) => items,
        Err(e) => panic!("parse error at token {}", e.position),
    };
    analyze(items)
}

#[test]
fn accepts_hello_la() {
    let src = r#"
fn main() {
    let ctx = ctx_alloc(512);
    ctx_append(ctx, "Hello, L-Agent!");
    println("Hello, L-Agent!");
    ctx_free(ctx);
}
"#;
    assert!(compile_src(src).is_ok());
}

#[test]
fn rejects_undefined_variable() {
    let src = "fn main() { println(x); }";
    assert!(compile_src(src).is_err());
}

#[test]
fn accepts_parameter_in_body() {
    let src = "fn greet(msg: str) { println(msg); }";
    assert!(compile_src(src).is_ok());
}

#[test]
fn builds_type_env_from_aliases() {
    let src = r#"type Emotion = semantic("joie", "colère", "neutre"); fn main() {}"#;
    let ast = compile_src(src).unwrap();
    let labels = ast.type_env.get("Emotion").unwrap();
    assert_eq!(labels.len(), 3);
}

#[test]
fn accepts_kernel_def() {
    let src = r#"
kernel Foo(x: str) -> str {
    observe(x);
    reason("test");
    let r: str = infer(x);
    verify(r != "");
    return r;
}
fn main() {}
"#;
    assert!(compile_src(src).is_ok());
}

#[test]
fn accepts_interruptible_block() {
    let src = "\nfn main() {\n    interruptible {\n        println(\"safe point\");\n    }\n}\n";
    assert!(compile_src(src).is_ok());
}

#[test]
fn accepts_soul_def() {
    let src = "\nsoul {\n    instruction \"You are a helpful agent.\";\n}\nfn main() {}\n";
    assert!(compile_src(src).is_ok());
}

#[test]
fn accepts_skill_def() {
    let src = "\nskill Greet(name: str) -> str {\n    return name;\n}\nfn main() {}\n";
    assert!(compile_src(src).is_ok());
}

#[test]
fn accepts_oracle_callable() {
    let src = r#"
oracle Lookup(q: str) -> str;
fn main() {
    let r = Lookup("test");
    println(r);
}
"#;
    assert!(compile_src(src).is_ok());
}

#[test]
fn registers_oracle_names() {
    let src = "\noracle Lookup(q: str) -> str;\nfn main() {}\n";
    let ast = compile_src(src).unwrap();
    assert!(ast.oracle_names.contains(&"Lookup".to_string()));
}

#[test]
fn registers_lore_table() {
    let src = "\nlore Background = \"This agent analyses sentiment.\";\nfn main() {}\n";
    let ast = compile_src(src).unwrap();
    assert_eq!(ast.lore_table.get("Background").unwrap().as_str(), "This agent analyses sentiment.");
}

#[test]
fn accepts_memory_decl() {
    let src = "\nmemory LastResult: str = \"\";\nfn main() {}\n";
    assert!(compile_src(src).is_ok());
}

#[test]
fn accepts_let_mut() {
    let src = "\nfn main() {\n    let mut x = 42;\n}\n";
    assert!(compile_src(src).is_ok());
}

#[test]
fn accepts_const_decl() {
    let src = "\nconst MAX: u32 = 100;\nfn main() {}\n";
    assert!(compile_src(src).is_ok());
}

#[test]
fn const_table_populated() {
    let src = "\nconst THRESHOLD: f32 = 0.75;\nconst NAME: str = \"test\";\nfn main() {}\n";
    let ast = compile_src(src).unwrap();
    assert!(matches!(ast.const_table.get("THRESHOLD"), Some(ConstValue::Float(f)) if f == "0.75"));
    assert!(matches!(ast.const_table.get("NAME"), Some(ConstValue::Str(s)) if s == "test"));
}

#[test]
fn const_arithmetic_evaluated_at_compile_time() {
    let src = "\nconst DOUBLE: u32 = 5 * 2;\nconst SUM: u32 = 10 + 20;\nconst IS_BIG: bool = 100 > 50;\nfn main() {}\n";
    let ast = compile_src(src).unwrap();
    assert!(matches!(ast.const_table.get("DOUBLE"), Some(ConstValue::Int(10))));
    assert!(matches!(ast.const_table.get("SUM"), Some(ConstValue::Int(30))));
    assert!(matches!(ast.const_table.get("IS_BIG"), Some(ConstValue::Bool(true))));
}

#[test]
fn accepts_if_else() {
    let src = r#"
fn main() {
    if 1 {
        println("yes");
    } else {
        println("no");
    }
}
"#;
    assert!(compile_src(src).is_ok());
}

#[test]
fn accepts_loop() {
    let src = "\nfn main() {\n    loop {\n        println(\"spinning\");\n    }\n}\n";
    assert!(compile_src(src).is_ok());
}

#[test]
fn accepts_while() {
    let src = "\nfn main() {\n    while 1 {\n        println(\"looping\");\n    }\n}\n";
    assert!(compile_src(src).is_ok());
}

#[test]
fn accepts_struct_def() {
    let src = "\nstruct User {\n    name: str,\n    age: u32,\n}\nfn main() {}\n";
    let ast = compile_src(src).unwrap();
    assert!(ast.struct_table.contains_key("User"));
    let fields = ast.struct_table.get("User").unwrap();
    assert_eq!(fields.len(), 2);
}

#[test]
fn accepts_enum_def() {
    let src = "\nenum Color {\n    Red,\n    Green,\n    Blue,\n}\nfn main() {}\n";
    let ast = compile_src(src).unwrap();
    assert!(ast.enum_table.contains_key("Color"));
    let variants = ast.enum_table.get("Color").unwrap();
    assert_eq!(variants.len(), 3);
}

#[test]
fn semantic_error_messages() {
    match compile_src("fn main() { println(x); }") {
        Err(e) => {
            assert!(matches!(&e, SemanticError::UndefinedVariable(n) if n == "x"));
            assert_eq!(e.message(), "undefined variable: `x`");
        },
        Ok(_) => panic!("expected an error"),
    }
    match compile_src("fn main() { let x = 1; x = 2; }") {
        Err(e) => assert_eq!(e.message(), "cannot assign to immutable variable `x` — declare it with `let mut x`"),
        Ok(_) => panic!("expected an error"),
    }
}

#[test]
fn constant_overflow_gives_no_constant() {
    let src = "\nconst BIG: u32 = 9223372036854775807 + 1;\nfn main() {}\n";
    let ast = compile_src(src).unwrap();
    assert!(ast.const_table.get("BIG").is_none());
}
