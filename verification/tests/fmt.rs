use wispee::fmt::format_items;
use wispee::lexer::tokenize;
use wispee::parser::parse;

fn roundtrip(src: &str) -> String {
    let tokens = tokenize(src).unwrap();
    let items = match parse(tokens) {
        Ok(items) => items,
        Err(e) => panic!("parse error at token {}", e.position),
    };
    format_items(&items)
}

#[test]
fn formats_empty_fn() {
    let out = roundtrip("fn main() {}");
    assert!(out.contains("fn main()"));
    assert!(out.contains("{}"));
}

#[test]
fn formats_pub_fn() {
    let out = roundtrip("pub fn helper() {}");
    assert!(out.contains("pub fn helper()"));
}

#[test]
fn formats_lore_decl() {
    let out = roundtrip(r#"lore Background = "Some text.";"#);
    assert!(out.contains("lore Background"));
    assert!(out.contains("Some text."));
}

#[test]
fn formats_memory_decl() {
    let out = roundtrip(r#"memory LastResult: str = "";"#);
    assert!(out.contains("memory LastResult: str"));
}

#[test]
fn formats_constraint_def() {
    let out = roundtrip(r#"constraint NonEmpty { verify(result != ""); }"#);
    assert!(out.contains("constraint NonEmpty"));
    assert!(out.contains("verify"));
}

#[test]
fn formats_exact_layout() {
    let out = roundtrip(
        "fn main() { let x: u32 = 1 + 2; branch x { case \"a\" (confidence > 0.5) => { apply Greet; } default => {} } }",
    );
    let expected = "fn main() {\n    let x: u32 = 1 + 2;\n    branch x {\n        case \"a\" (confidence > 0.5) => {\n            apply Greet;\n        }\n        default => {}\n    }\n}";
    assert_eq!(out, expected);
}

#[test]
fn formats_items_one_per_line() {
    let out = roundtrip("use \"lib\"; pub lore L = \"v\"; oracle o(q: str) -> str;");
    assert_eq!(out, "use \"lib\";\nlore L = \"v\";\noracle o(q: str) -> str;".replace("lore L", "pub lore L"));
}

#[test]
fn formatting_is_stable() {
    let src = "kernel k(a: str) -> semantic(\"x\", \"y\") { if a != \"\" { return a; } else { return \"z\"; } }";
    let once = roundtrip(src);
    let twice = roundtrip(&once);
    assert_eq!(once, twice);
}
