use wispee::lexer::{tokenize, Token};

#[test]
fn tokenizes_fn_keyword() {
    let tokens = tokenize("fn").unwrap();
    assert_eq!(tokens, vec![Token::Fn]);
}

#[test]
fn tokenizes_ctx_alloc_call() {
    let tokens = tokenize("ctx_alloc(4096)").unwrap();
    assert!(tokens.contains(&Token::CtxAlloc));
    assert!(tokens.contains(&Token::LParen));
    assert!(tokens.contains(&Token::RParen));
}

#[test]
fn tokenizes_string_literal() {
    let tokens = tokenize(r#""hello""#).unwrap();
    assert_eq!(tokens, vec![Token::StringLit(r#""hello""#.to_string())]);
}

#[test]
fn tokenizes_agent_vocabulary_keywords() {
    let src = "soul skill instruction spell memory oracle constraint lore";
    let tokens = tokenize(src).unwrap();
    assert!(tokens.contains(&Token::Soul));
    assert!(tokens.contains(&Token::Skill));
    assert!(tokens.contains(&Token::Instruction));
    assert!(tokens.contains(&Token::Spell));
    assert!(tokens.contains(&Token::Memory));
    assert!(tokens.contains(&Token::Oracle));
    assert!(tokens.contains(&Token::Constraint));
    assert!(tokens.contains(&Token::Lore));
}

#[test]
fn tokenizes_module_keywords() {
    let tokens = tokenize("pub use").unwrap();
    assert_eq!(tokens, vec![Token::Pub, Token::Use]);
}

#[test]
fn tokenizes_integer_literal() {
    let tokens = tokenize("42").unwrap();
    assert_eq!(tokens, vec![Token::IntLit(42)]);
}

#[test]
fn tokenizes_full_fn_signature() {
    let tokens = tokenize("fn main()").unwrap();
    assert_eq!(
        tokens,
        vec![Token::Fn, Token::Ident("main".to_string()), Token::LParen, Token::RParen]
    );
}

#[test]
fn skips_line_comments() {
    let tokens = tokenize("fn // this is a comment\nmain").unwrap();
    assert_eq!(tokens, vec![Token::Fn, Token::Ident("main".to_string())]);
}

#[test]
fn tokenizes_decimal_literal_as_written() {
    let tokens = tokenize("0.750").unwrap();
    assert_eq!(tokens, vec![Token::FloatLit("0.750".to_string())]);
}

#[test]
fn lex_error_reports_position() {
    match tokenize("fn main() { # }") {
        Err(e) => assert_eq!(e.position, 12),
        Ok(_) => panic!("expected a lex error"),
    }
}
