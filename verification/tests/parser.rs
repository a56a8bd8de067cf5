use wispee::ast::{Expr, Item, PrimType, Stmt, TypeExpr};
use wispee::lexer::tokenize;
use wispee::parser::parse;

fn parse_src(src: &str) -> Vec<Item> {
    let tokens = tokenize(src).unwrap();
    match parse(tokens) {
        Ok(items) => items,
        Err(e) => panic!("parse error at token {}", e.position),
    }
}

#[test]
fn mod_parses_empty_fn() {
    let items = parse_src("fn main() {}");
    assert_eq!(items.len(), 1);
    if let Item::FnDef(f) = &items[0] {
        assert_eq!(f.name, "main");
        assert!(f.body.is_empty());
    } else {
        panic!("expected FnDef");
    }
}

#[test]
fn mod_parses_hello_la() {
    let src = r#"
fn main() {
    let ctx = ctx_alloc(512);
    ctx_append(ctx, "Hello, L-Agent!");
    println("Hello, L-Agent!");
    ctx_free(ctx);
}
"#;
    let items = parse_src(src);
    assert_eq!(items.len(), 1);
    if let Item::FnDef(f) = &items[0] {
        assert_eq!(f.name, "main");
        assert_eq!(f.body.len(), 4);
    } else {
        panic!("expected FnDef");
    }
}

#[test]
fn mod_parses_fn_with_param_and_return_type() {
    let items = parse_src("fn greet(name: str) -> str { return name; }");
    assert_eq!(items.len(), 1);
    if let Item::FnDef(f) = &items[0] {
        assert_eq!(f.params.len(), 1);
        assert!(f.return_type.is_some());
    } else {
        panic!("expected FnDef");
    }
}

#[test]
fn mod_parses_type_alias() {
    let items = parse_src(r#"type Emotion = semantic("joie", "colère", "tristesse", "neutre");"#);
    assert_eq!(items.len(), 1);
    if let Item::TypeAlias(ta) = &items[0] {
        assert_eq!(ta.name, "Emotion");
        if let TypeExpr::Semantic(labels) = &ta.def {
            assert_eq!(labels.len(), 4);
        } else {
            panic!("expected Semantic type");
        }
    } else {
        panic!("expected TypeAlias");
    }
}

#[test]
fn mod_parses_kernel_def() {
    let items = parse_src("kernel Foo(x: str) -> str { return x; }");
    assert_eq!(items.len(), 1);
    assert!(matches!(&items[0], Item::KernelDef(_)));
}

#[test]
fn mod_parses_branch_stmt() {
    let src = r#"
fn main() {
    branch intent {
        case "angry" (confidence > 0.7) => {
            println("crise");
        }
        case "help" (confidence > 0.4) => {
            println("support");
        }
        default => {
            println("operateur");
        }
    }
}
"#;
    let items = parse_src(src);
    assert_eq!(items.len(), 1);
    if let Item::FnDef(f) = &items[0] {
        assert_eq!(f.body.len(), 1);
        assert!(matches!(&f.body[0], Stmt::Branch(_)));
        if let Stmt::Branch(b) = &f.body[0] {
            assert_eq!(b.cases.len(), 2);
            assert_eq!(b.cases[0].confidence, "0.7");
            assert!(b.default.is_some());
        }
    } else {
        panic!("expected FnDef");
    }
}

#[test]
fn mod_parses_emotion_analysis() {
    let src = r#"
type Emotion = semantic("joie", "colère", "tristesse", "neutre");

kernel AnalyserMessage(texte: str) -> Emotion {
    observe(texte);
    reason("Déterminer l'émotion dominante dans le texte");
    let emotion: Emotion = infer(texte);
    verify(emotion != "neutre");
    return emotion;
}

fn main() {
    let ctx = ctx_alloc(4096);
    ctx_append(ctx, "Je suis très mécontent de ce service !");

    branch intent {
        case "angry" (confidence > 0.7) => {
            println("Gestion de crise activée");
        }
        case "help" (confidence > 0.4) => {
            println("Support standard");
        }
        default => {
            println("Redirection vers un opérateur humain");
        }
    }

    ctx_free(ctx);
}
"#;
    let items = parse_src(src);
    assert_eq!(items.len(), 3);
    assert!(matches!(&items[0], Item::TypeAlias(_)));
    assert!(matches!(&items[1], Item::KernelDef(_)));
    assert!(matches!(&items[2], Item::FnDef(_)));
}

#[test]
fn parses_soul_def() {
    let src = r#"
soul {
    instruction "You are a helpful agent.";
    instruction "Always be concise.";
}
"#;
    let items = parse_src(src);
    assert_eq!(items.len(), 1);
    if let Item::SoulDef(s) = &items[0] {
        assert_eq!(s.body.len(), 2);
        assert!(matches!(&s.body[0], Stmt::Instruction(_)));
        assert!(matches!(&s.body[1], Stmt::Instruction(_)));
    } else {
        panic!("expected SoulDef");
    }
}

#[test]
fn parses_skill_def() {
    let items = parse_src("skill Greet(name: str) -> str { return name; }");
    assert_eq!(items.len(), 1);
    if let Item::SkillDef(s) = &items[0] {
        assert_eq!(s.name, "Greet");
        assert_eq!(s.params.len(), 1);
        assert!(!s.is_pub);
    } else {
        panic!("expected SkillDef");
    }
}

#[test]
fn parses_pub_skill_def() {
    let items = parse_src("pub skill Greet(name: str) -> str { return name; }");
    assert_eq!(items.len(), 1);
    if let Item::SkillDef(s) = &items[0] {
        assert!(s.is_pub);
    } else {
        panic!("expected SkillDef");
    }
}

#[test]
fn parses_spell_def() {
    let items = parse_src("spell Analyse(text: str) -> str { return text; }");
    assert_eq!(items.len(), 1);
    assert!(matches!(&items[0], Item::SpellDef(_)));
}

#[test]
fn parses_memory_decl() {
    let items = parse_src(r#"memory LastResult: str = "";"#);
    assert_eq!(items.len(), 1);
    if let Item::MemoryDecl(m) = &items[0] {
        assert_eq!(m.name, "LastResult");
        assert!(matches!(&m.ty, TypeExpr::Primitive(PrimType::Str)));
        assert!(matches!(&m.init, Expr::StringLit(s) if s.is_empty()));
    } else {
        panic!("expected MemoryDecl");
    }
}

#[test]
fn parses_oracle_decl() {
    let items = parse_src("oracle FetchContext(url: str) -> str;");
    assert_eq!(items.len(), 1);
    if let Item::OracleDecl(o) = &items[0] {
        assert_eq!(o.name, "FetchContext");
        assert_eq!(o.params.len(), 1);
    } else {
        panic!("expected OracleDecl");
    }
}

#[test]
fn parses_lore_decl() {
    let items = parse_src(r#"lore Background = "This agent analyses sentiment.";"#);
    assert_eq!(items.len(), 1);
    if let Item::LoreDecl(l) = &items[0] {
        assert_eq!(l.name, "Background");
        assert_eq!(l.value, "This agent analyses sentiment.");
    } else {
        panic!("expected LoreDecl");
    }
}

#[test]
fn parses_use_decl() {
    let items = parse_src(r#"use "utils.la";"#);
    assert_eq!(items.len(), 1);
    if let Item::UseDecl(u) = &items[0] {
        assert_eq!(u.path, "utils.la");
    } else {
        panic!("expected UseDecl");
    }
}

#[test]
fn parses_constraint_def() {
    let items = parse_src(r#"constraint PositiveOnly { println("checking"); }"#);
    assert_eq!(items.len(), 1);
    if let Item::ConstraintDef(c) = &items[0] {
        assert_eq!(c.name, "PositiveOnly");
    } else {
        panic!("expected ConstraintDef");
    }
}

#[test]
fn parses_if_else() {
    let src = r#"
fn main() {
    if 1 {
        println("yes");
    } else {
        println("no");
    }
}
"#;
    let items = parse_src(src);
    if let Item::FnDef(f) = &items[0] {
        assert_eq!(f.body.len(), 1);
        assert!(matches!(&f.body[0], Stmt::If { .. }));
    } else {
        panic!("expected FnDef");
    }
}

#[test]
fn parses_loop() {
    let src = "\nfn main() {\n    loop {\n        println(\"looping\");\n    }\n}\n";
    let items = parse_src(src);
    if let Item::FnDef(f) = &items[0] {
        assert!(matches!(&f.body[0], Stmt::Loop(_)));
    } else {
        panic!("expected FnDef");
    }
}

#[test]
fn parses_while() {
    let src = "\nfn main() {\n    while x != 0 {\n        println(x);\n    }\n}\n";
    let items = parse_src(src);
    if let Item::FnDef(f) = &items[0] {
        assert!(matches!(&f.body[0], Stmt::While { .. }));
    } else {
        panic!("expected FnDef");
    }
}

#[test]
fn parses_let_mut() {
    let src = "\nfn main() {\n    let mut x = 42;\n    x = 100;\n}\n";
    let items = parse_src(src);
    if let Item::FnDef(f) = &items[0] {
        assert_eq!(f.body.len(), 2);
        if let Stmt::Let(_, _, _, is_mut) = &f.body[0] {
            assert!(*is_mut);
        } else {
            panic!("expected Let");
        }
        assert!(matches!(&f.body[1], Stmt::Assign(_, _)));
    } else {
        panic!("expected FnDef");
    }
}

#[test]
fn parses_const() {
    let src = "\nconst MAX: u32 = 100;\nfn main() {}\n";
    let items = parse_src(src);
    assert_eq!(items.len(), 2);
    if let Item::ConstDef(c) = &items[0] {
        assert_eq!(c.name, "MAX");
    } else {
        panic!("expected ConstDef");
    }
}

#[test]
fn parses_struct_def() {
    let src = "\nstruct Point {\n    x: f32,\n    y: f32,\n}\nfn main() {}\n";
    let items = parse_src(src);
    assert_eq!(items.len(), 2);
    if let Item::StructDef(s) = &items[0] {
        assert_eq!(s.name, "Point");
        assert_eq!(s.fields.len(), 2);
    } else {
        panic!("expected StructDef");
    }
}

#[test]
fn parses_enum_def() {
    let src = "\nenum Result {\n    Ok,\n    Err,\n}\nfn main() {}\n";
    let items = parse_src(src);
    if let Item::EnumDef(e) = &items[0] {
        assert_eq!(e.name, "Result");
        assert_eq!(e.variants.len(), 2);
    } else {
        panic!("expected EnumDef");
    }
}

#[test]
fn parses_arithmetic_operators() {
    let src = "\nfn main() {\n    let a = 1 + 2 * 3;\n    let b = 10 - 5;\n    let c = 20 / 4;\n    let d = 7 % 3;\n}\n";
    let items = parse_src(src);
    if let Item::FnDef(f) = &items[0] {
        assert_eq!(f.body.len(), 4);
    } else {
        panic!("expected FnDef");
    }
}

#[test]
fn parses_logical_operators() {
    let src = r#"
fn main() {
    if x > 0 && x < 10 {
        println("in range");
    }
    if x == 0 || x == 100 {
        println("boundary");
    }
}
"#;
    let items = parse_src(src);
    if let Item::FnDef(f) = &items[0] {
        assert_eq!(f.body.len(), 2);
    } else {
        panic!("expected FnDef");
    }
}

#[test]
fn parses_tuple() {
    let src = "\nfn main() {\n    let t = (1, \"hello\", 3.14);\n}\n";
    let items = parse_src(src);
    if let Item::FnDef(f) = &items[0] {
        assert_eq!(f.body.len(), 1);
    } else {
        panic!("expected FnDef");
    }
}

#[test]
fn parse_error_reports_where_the_failing_item_starts() {
    let tokens = tokenize("fn main( {}").unwrap();
    match parse(tokens) {
        Err(e) => assert_eq!(e.position, 0),
        Ok(_) => panic!("expected a parse error"),
    }
    let tokens = tokenize("fn a() {} fn b( {}").unwrap();
    match parse(tokens) {
        Err(e) => assert_eq!(e.position, 6),
        Ok(_) => panic!("expected a parse error"),
    }
}
