//! Tests of the disassembler and of the textual helpers it rests on.

use efa_core::bytecode::{BinOp, Bytecode, Instr};
use efa_core::dis::disassemble_function;
use efa_core::object::CodeObject;
use efa_core::decode::{decode_code_object, DecodeError};
use efa_core::object::encode_code_object;
use efa_core::text::{dec_chars, dec_chars_signed, hex_chars, string_from_chars};
use efa_core::value::Value;
use efa_core::VmError;

#[test]
fn test_decimal_rendering() {
    assert_eq!(string_from_chars(&dec_chars(0)), "0");
    assert_eq!(string_from_chars(&dec_chars(6765)), "6765");
    assert_eq!(string_from_chars(&dec_chars_signed(-128)), "-128");
    assert_eq!(string_from_chars(&dec_chars_signed(i128::MIN)), i128::MIN.to_string());
}

#[test]
fn test_hex_rendering() {
    assert_eq!(string_from_chars(&hex_chars(0xdeadbeef, 8)), "deadbeef");
    assert_eq!(
        string_from_chars(&hex_chars(0, 32)),
        "00000000000000000000000000000000"
    );
}

#[test]
fn test_format_with_labelnames() {
    let bc = Bytecode::new(vec![
        Instr::LoadArg(0),
        Instr::JumpT(3),
        Instr::BinOp(BinOp::Add),
        Instr::Dbg,
    ]);
    let lines = Bytecode::format_with_labelnames(&bc);
    assert_eq!(lines[0], "    load_arg 0");
    assert_eq!(lines[1], "    jmp_t L3");
    assert_eq!(lines[2], "    add");
    assert_eq!(lines[3], "    dbg");
}

#[test]
fn test_disassemble_function_layout() {
    let obj = CodeObject {
        litpool: vec![Value::I32(7), Value::string("hi")],
        argcount: 1,
        localnames: vec!["x0".into()],
        labels: vec![1],
        code: Bytecode::new(vec![Instr::LoadLit(0), Instr::ReturnVal]),
    };
    let text = disassemble_function("f", &obj.hash(), &obj).unwrap();
    let expected = format!(
        "# {}\n$f 1:\n    .lit 7\n    .lit \"hi\"\n    load_lit 0\nL0:\n    ret_val\n",
        obj.hash_str()
    );
    assert_eq!(text, expected);
}

#[test]
fn test_disassemble_rejects_label_past_code() {
    let obj = CodeObject {
        litpool: vec![],
        argcount: 0,
        localnames: vec![],
        labels: vec![5],
        code: Bytecode::new(vec![Instr::Nop]),
    };
    assert_eq!(
        disassemble_function("f", &obj.hash(), &obj),
        Err(VmError::LabelIndexOutOfBounds)
    );
}

#[test]
fn test_hashing_depends_on_content() {
    // The digest is computed from the serialized bytes: equal objects
    // hash equal, and changing one literal changes the hash.
    let a = CodeObject {
        litpool: vec![Value::I32(1)],
        argcount: 0,
        localnames: vec![],
        labels: vec![],
        code: Bytecode::new(vec![Instr::ReturnVal]),
    };
    let b = CodeObject {
        litpool: vec![Value::I32(1)],
        argcount: 0,
        localnames: vec![],
        labels: vec![],
        code: Bytecode::new(vec![Instr::ReturnVal]),
    };
    let c = CodeObject {
        litpool: vec![Value::I32(2)],
        argcount: 0,
        localnames: vec![],
        labels: vec![],
        code: Bytecode::new(vec![Instr::ReturnVal]),
    };
    assert_eq!(a.hash(), b.hash());
    assert_ne!(a.hash(), c.hash());
}

#[test]
fn test_decode_inverts_encode() {
    let obj = CodeObject {
        litpool: vec![
            Value::I8(-5),
            Value::U64(7),
            Value::I128(i128::MIN),
            Value::Isize(-3),
            Value::Usize(9),
            Value::Char('λ'),
            Value::Bool(true),
            Value::Hash(0xdeadbeef),
            Value::string("hi"),
            Value::Container(vec![Value::I32(1), Value::string("x")]),
        ],
        argcount: 2,
        localnames: vec!["x0".into(), "x1".into(), "x2".into()],
        labels: vec![0, 3],
        code: Bytecode::new(vec![
            Instr::LoadArg(0),
            Instr::LoadDyn("other".into()),
            Instr::Call,
            Instr::LoadFunc(42),
            Instr::BinOp(BinOp::Add),
            Instr::ReturnVal,
        ]),
    };
    let bytes = encode_code_object(&obj);
    let back = decode_code_object(&bytes).unwrap();
    assert_eq!(back, obj);
    assert_eq!(back.hash(), obj.hash());

    // Truncated input is rejected.
    let cut: Vec<u8> = bytes[..bytes.len() - 1].to_vec();
    assert!(decode_code_object(&cut).is_err());
    // Trailing bytes are rejected.
    let mut long = bytes.clone();
    long.push(0);
    assert_eq!(decode_code_object(&long), Err(DecodeError::TrailingBytes));
}
