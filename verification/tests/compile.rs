use wispee::compile;

#[test]
fn compiles_empty_source() {
    assert!(compile("").is_ok());
}

#[test]
fn compile_produces_wspw_magic_header() {
    let bytecode = match compile("") {
        Ok(b) => b,
        Err(_) => panic!("compilation failed"),
    };
    assert!(bytecode.len() >= 4, "bytecode too short to contain magic header");
    assert_eq!(&bytecode[0..4], b"WSPW", "missing WSPW magic header");
}

#[test]
fn compiles_whitespace_only_source() {
    assert!(compile("   \n\t  ").is_ok());
}

#[test]
fn compiles_source_with_only_comments() {
    assert!(compile("// this is a comment\n// another one").is_ok());
}

#[test]
fn semantic_rejects_unknown_constraint() {
    let src = "\nfn main() {\n    apply Undefined;\n}\n";
    let result = compile(src);
    assert!(result.is_err(), "expected semantic error for unknown constraint");
}
