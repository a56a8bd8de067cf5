use wispee::compile;
use wispee::opcodes::{Bytecode, KernelBytecode, OpCode};
use wispee::wire::{decode_bytecode, encode_bytecode};

#[test]
fn encoding_starts_with_header_and_version() {
    let bc = Bytecode::new(vec![], vec![OpCode::Halt]);
    let bytes = encode_bytecode(&bc);
    // magic, version 1, no kernels, one instruction: Halt (variant 11)
    assert_eq!(
        bytes,
        vec![
            b'W', b'S', b'P', b'W', 1, 0, 0, 0, 0, 0, 0, 0, 0, 0, 1, 0, 0, 0, 0, 0, 0, 0, 11, 0, 0, 0
        ]
    );
}

#[test]
fn decode_reads_back_what_encode_wrote() {
    let kernel = KernelBytecode {
        name: "K".to_string(),
        params: vec!["a".to_string(), "b".to_string()],
        body: vec![
            OpCode::LoadLocal("a".to_string()),
            OpCode::BranchClassify {
                var: "v".to_string(),
                cases: vec![("x".to_string(), "0.5".to_string(), vec![OpCode::PushInt(u64::MAX)])],
                default: vec![OpCode::PushBool(false)],
            },
            OpCode::Return,
        ],
        max_retries: 3,
    };
    let bc = Bytecode::new(
        vec![kernel],
        vec![
            OpCode::CallOracle("é".to_string(), 2),
            OpCode::StructConstruct { name: "S".to_string(), field_names: vec!["f".to_string()] },
            OpCode::Jump(usize::MAX),
            OpCode::CallKernel(0),
            OpCode::Halt,
        ],
    );
    let mut bytes = encode_bytecode(&bc);
    bytes.extend_from_slice(&[9, 9, 9]);
    let back = decode_bytecode(&bytes).unwrap();
    assert_eq!(encode_bytecode(&back), encode_bytecode(&bc));
    assert_eq!(back.kernels[0].name, "K");
    assert!(matches!(&back.instructions[0], OpCode::CallOracle(n, 2) if n == "é"));
}

#[test]
fn truncated_program_is_rejected() {
    let bytes = compile("fn main() {}").ok().unwrap();
    assert!(decode_bytecode(&bytes).is_some());
    assert!(decode_bytecode(&bytes[..bytes.len() - 1].to_vec()).is_none());
}

#[test]
fn bad_string_bytes_are_rejected() {
    let mut bytes = encode_bytecode(&Bytecode::new(vec![], vec![OpCode::PushStr("a".to_string())]));
    let last = bytes.len() - 1;
    bytes[last] = 0xff;
    assert!(decode_bytecode(&bytes).is_none());
}

#[test]
fn decoded_program_reencodes_to_the_bytes_read() {
    let mut bytes = compile("kernel k(x: str) -> str { return x; } fn main() { let a = k(\"hi\"); println(a); }")
        .ok()
        .unwrap();
    let n = bytes.len();
    bytes.extend_from_slice(&[7, 7, 7]);
    let bc = decode_bytecode(&bytes).unwrap();
    let again = encode_bytecode(&bc);
    assert_eq!(again, bytes[..n].to_vec());
}
