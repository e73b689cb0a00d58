//! Tests of the assembler's parser.

use efa_core::parser::{Parse, ParseError, ParseToken, Parser};
use efa_core::bytecode::Instr;
use efa_core::value::Value;

fn parse_show(source: &str) -> Vec<Parse> {
    let parse = Parser::parse_file(source).unwrap();
    println!("{:#?}", parse);
    parse
}

const FIB_ASM: &str = "$fib 1:
    .lit 0
    .lit 1
    .lit 2
    load_arg 0
    load_lit 0
    eq
    load_arg 0
    load_lit 1
    eq
    or
    jmp_t Lbase
    load_arg 0
    load_lit 1
    sub
    call_self
    load_arg 0
    load_lit 2
    sub
    call_self
    add
    ret_val
Lbase:
    load_arg 0
    ret_val
$main 0:
    .lit 20
    load_lit 0
    load_dyn $fib
    call
    ret_val
";

const LITS_ASM: &str = "$main 0:
    .lit \"hello world\"
    .lit true
    .lit 0xdeadbeefdeadbeefcafebabecafebabe
    .lit 44
    load_lit 0
    pop
    load_lit 1
    pop
    load_lit 2
    pop
    load_lit 3
    ret_val
";

const DOUBLE_ASM: &str = "$double 1:
    .lit 2
    load_arg 0
    load_lit 0
    mul
    ret_val
$main 0:
    .lit 22
    .lit 44
    load_lit 0
    load_dyn $double
    call
    load_lit 1
    sub
    ret_val
";

const CALL_ASM: &str = "$seven 0:
    .lit 7
    load_lit 0
    ret_val
$main 0:
    load_dyn $seven
    call
    ret_val
";

const COMMENTS_ASM: &str = "# a leading comment line
$main 0:
    .lit \"#not a comment\"   # a trailing comment
    .lit 0                    # another
    # a full-line comment between instructions
    load_lit 1
    ret_val
";

#[test]
fn parser_test_examples() {
    parse_show(FIB_ASM);
    parse_show(LITS_ASM);
    parse_show(DOUBLE_ASM);
    parse_show(CALL_ASM);
    let cs = parse_show(COMMENTS_ASM);
    assert_eq!(cs.len(), 1);
    assert_eq!(cs[0].code_obj.litpool[0], Value::String(String::from("#not a comment")));
}

#[test]
fn test_is_funcdef() {
    assert!(matches!(Parser::is_func_def("$fib 3:"), Some(Ok(_))));
    assert!(matches!(Parser::is_func_def("$fibb 33:"), Some(Ok(_))));
    assert!(matches!(Parser::is_func_def("$fibb 33"), None));
    assert!(matches!(Parser::is_func_def("fibb 99:"), None));
}

#[test]
fn test_num_locals() {
    assert_eq!(
        Parser::get_num_locals(&[
            ParseToken::Instr(Instr::LoadLocal(0)),
            ParseToken::Instr(Instr::StoreLocal(1)),
        ])
        .unwrap(),
        2
    );

    assert_eq!(Parser::get_num_locals(&[ParseToken::Instr(Instr::Nop)]).unwrap(), 0);

    assert_eq!(
        Parser::get_num_locals(&[ParseToken::Instr(Instr::LoadLocal(0))]).unwrap(),
        1
    );
}

#[test]
fn test_preprocess_strips_comments() {
    let out = Parser::preprocess("  a b  # comment\n\n   \nnext  ");
    assert_eq!(out.as_str(), "a b\nnext");
}

#[test]
fn test_split_functions_groups_by_header() {
    let groups = Parser::split_functions("$a 0:\nnop\n$b 1:\nret").unwrap();
    assert_eq!(groups.len(), 2);
    assert_eq!(groups[0].as_str(), "$a 0:\nnop");
    assert_eq!(groups[1].as_str(), "$b 1:\nret");
}

#[test]
fn test_labels_and_offsets() {
    let (names, offsets) = Parser::get_labels("$f 0:\nnop\nLone:\nnop\nLtwo:").unwrap();
    assert_eq!(names.len(), 2);
    assert_eq!(names[0].0.as_str(), "Lone");
    assert_eq!(names[0].1, 0);
    assert_eq!(names[1].0.as_str(), "Ltwo");
    assert_eq!(names[1].1, 1);
    assert_eq!(offsets, vec![1, 2]);
}

#[test]
fn test_bad_literal_is_rejected() {
    let r = Parser::parse_file("$main 0:\n    .lit abc\n    ret\n");
    assert!(matches!(r, Err(ParseError::InvalidLiteral)));
}

#[test]
fn test_bad_string_literal_is_rejected() {
    let r = Parser::parse_file("$main 0:\n    .lit \"abc\n    ret\n");
    assert!(matches!(r, Err(ParseError::InvalidStrLit)));
}

#[test]
fn test_bad_hash_literal_is_rejected() {
    let r = Parser::parse_file("$main 0:\n    .lit 0xdead\n    ret\n");
    assert!(matches!(r, Err(ParseError::InvalidHash)));
}

#[test]
fn test_unknown_mnemonic_is_rejected() {
    let r = Parser::parse_file("$main 0:\n    fly 3\n");
    assert!(matches!(r, Err(ParseError::UnknownInstr(_))));
}

#[test]
fn test_unknown_label_is_rejected() {
    let r = Parser::parse_file("$main 0:\n    jmp Lmissing\n");
    assert!(matches!(r, Err(ParseError::UnknownLabel)));
}

#[test]
fn test_missing_header_is_rejected() {
    let r = Parser::parse_file("nop\nret\n");
    assert!(matches!(r, Err(ParseError::NoFunctionDef)));
}

#[test]
fn test_generated_local_names() {
    let parses = Parser::parse_file("$f 2:\n    load_loc 0\n    store_loc 1\n    ret\n").unwrap();
    let obj = &parses[0].code_obj;
    assert_eq!(obj.argcount, 2);
    let names: Vec<&str> = obj.localnames.iter().map(|s| s.as_str()).collect();
    assert_eq!(names, vec!["x0", "x1", "x2", "x3"]);
}
