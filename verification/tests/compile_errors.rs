use wispee::compile;

#[test]
fn compile_reports_each_stage() {
    match compile("fn main() { # }") {
        Err(e) => assert_eq!(e.message(), "lex error at character 12"),
        Ok(_) => panic!("expected a lex error"),
    }
    match compile("fn main() { println(x); }") {
        Err(e) => assert_eq!(e.message(), "undefined variable: `x`"),
        Ok(_) => panic!("expected a semantic error"),
    }
    match compile("fn main() { continue; }") {
        Err(e) => assert_eq!(e.message(), "`continue` outside of loop"),
        Ok(_) => panic!("expected a codegen error"),
    }
    assert!(compile("fn main() {").is_err());
}

#[test]
fn compiling_twice_gives_the_same_bytes() {
    let src = "kernel K(x: str) -> str { return x; }\nfn main() { let r = K(\"a\"); println(r); }";
    let a = compile(src).ok().unwrap();
    let b = compile(src).ok().unwrap();
    assert_eq!(a, b);
}
