//! Tests of bytecode construction.

use efa_core::bytecode::{BinOp, Bytecode, Instr};

#[test]
fn bytecode_macro() {
    Bytecode::new(vec![]);
    Bytecode::new(vec![Instr::Nop]);
    Bytecode::new(vec![Instr::Nop, Instr::BinOp(BinOp::Add)]);
}
