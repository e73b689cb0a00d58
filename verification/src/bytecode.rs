//! The instruction set: opcodes with at most one immediate operand, and
//! the bytecode sequence a code object carries.

use vstd::prelude::*;
use crate::CodeHash;

verus! {

/// A binary operator popped off the instruction stream.
#[derive(Debug, Clone, Copy, PartialEq, Eq, Structural)]
pub enum BinOp {
    Add,
    Mul,
    Div,
    Sub,
    Mod,
    Shl,
    Shr,
    And,
    Or,
    Eq,
}

/// A unary operator.
#[derive(Debug, Clone, Copy, PartialEq, Eq, Structural)]
pub enum UnaryOp {
    Not,
    Neg,
}

/// One instruction: an opcode and zero or one immediate.
#[derive(Debug, PartialEq)]
pub enum Instr {
    /// Push the argument with the given index.
    LoadArg(usize),
    /// Push the local with the given index (an offset past the arguments).
    LoadLocal(usize),
    /// Push the literal-pool entry with the given index.
    LoadLit(usize),
    /// Pop into the local with the given index.
    StoreLocal(usize),
    /// Discard the top of the stack.
    Pop,
    /// Push a copy of the top of the stack.
    Dup,
    /// Push the given hash as a value.
    LoadFunc(CodeHash),
    /// Push the hash bound to the given name, resolved through the store
    /// at execution time.
    LoadDyn(String),
    /// Pop a hash and call the object it addresses.
    Call,
    /// Call the current code object again.
    CallSelf,
    /// Discard the frame and return no value.
    Return,
    /// Pop the top of the stack and return it to the caller.
    ReturnVal,
    /// Jump to the given label unconditionally.
    Jump(usize),
    /// Pop a boolean; jump when it is true.
    JumpT(usize),
    /// Pop a boolean; jump when it is false.
    JumpF(usize),
    /// Pop right then left; jump when they are equal.
    JumpEq(usize),
    /// Pop right then left; jump when they differ.
    JumpNe(usize),
    /// Pop right then left; jump when left is greater.
    JumpGt(usize),
    /// Pop right then left; jump when left is greater or equal.
    JumpGe(usize),
    /// Pop right then left; jump when left is less.
    JumpLt(usize),
    /// Pop right then left; jump when left is less or equal.
    JumpLe(usize),
    /// Pop right then left; push the operator's result.
    BinOp(BinOp),
    /// Pop one value; push the operator's result.
    UnaryOp(UnaryOp),
    /// Print the top of the stack without consuming it.
    Dbg,
    /// Do nothing.
    Nop,
}

/// The mathematical shape of an instruction: names as character
/// sequences.
pub enum InstrV {
    LoadArg(usize),
    LoadLocal(usize),
    LoadLit(usize),
    StoreLocal(usize),
    Pop,
    Dup,
    LoadFunc(u128),
    LoadDyn(Seq<char>),
    Call,
    CallSelf,
    Return,
    ReturnVal,
    Jump(usize),
    JumpT(usize),
    JumpF(usize),
    JumpEq(usize),
    JumpNe(usize),
    JumpGt(usize),
    JumpGe(usize),
    JumpLt(usize),
    JumpLe(usize),
    BinOp(BinOp),
    UnaryOp(UnaryOp),
    Dbg,
    Nop,
}

impl View for Instr {
    type V = InstrV;

    open spec fn view(&self) -> InstrV {
        match self {
            Instr::LoadArg(i) => InstrV::LoadArg(*i),
            Instr::LoadLocal(i) => InstrV::LoadLocal(*i),
            Instr::LoadLit(i) => InstrV::LoadLit(*i),
            Instr::StoreLocal(i) => InstrV::StoreLocal(*i),
            Instr::Pop => InstrV::Pop,
            Instr::Dup => InstrV::Dup,
            Instr::LoadFunc(h) => InstrV::LoadFunc(*h),
            Instr::LoadDyn(s) => InstrV::LoadDyn(s@),
            Instr::Call => InstrV::Call,
            Instr::CallSelf => InstrV::CallSelf,
            Instr::Return => InstrV::Return,
            Instr::ReturnVal => InstrV::ReturnVal,
            Instr::Jump(i) => InstrV::Jump(*i),
            Instr::JumpT(i) => InstrV::JumpT(*i),
            Instr::JumpF(i) => InstrV::JumpF(*i),
            Instr::JumpEq(i) => InstrV::JumpEq(*i),
            Instr::JumpNe(i) => InstrV::JumpNe(*i),
            Instr::JumpGt(i) => InstrV::JumpGt(*i),
            Instr::JumpGe(i) => InstrV::JumpGe(*i),
            Instr::JumpLt(i) => InstrV::JumpLt(*i),
            Instr::JumpLe(i) => InstrV::JumpLe(*i),
            Instr::BinOp(op) => InstrV::BinOp(*op),
            Instr::UnaryOp(op) => InstrV::UnaryOp(*op),
            Instr::Dbg => InstrV::Dbg,
            Instr::Nop => InstrV::Nop,
        }
    }
}

impl Clone for Instr {
    /// A copy with the same view.
    #[verifier::rlimit(60)]
    fn clone(&self) -> (r: Instr)
        ensures
            r@ == self@,
    {
        match self {
            Instr::LoadArg(i) => Instr::LoadArg(*i),
            Instr::LoadLocal(i) => Instr::LoadLocal(*i),
            Instr::LoadLit(i) => Instr::LoadLit(*i),
            Instr::StoreLocal(i) => Instr::StoreLocal(*i),
            Instr::Pop => Instr::Pop,
            Instr::Dup => Instr::Dup,
            Instr::LoadFunc(h) => Instr::LoadFunc(*h),
            Instr::LoadDyn(s) => Instr::LoadDyn(s.clone()),
            Instr::Call => Instr::Call,
            Instr::CallSelf => Instr::CallSelf,
            Instr::Return => Instr::Return,
            Instr::ReturnVal => Instr::ReturnVal,
            Instr::Jump(i) => Instr::Jump(*i),
            Instr::JumpT(i) => Instr::JumpT(*i),
            Instr::JumpF(i) => Instr::JumpF(*i),
            Instr::JumpEq(i) => Instr::JumpEq(*i),
            Instr::JumpNe(i) => Instr::JumpNe(*i),
            Instr::JumpGt(i) => Instr::JumpGt(*i),
            Instr::JumpGe(i) => Instr::JumpGe(*i),
            Instr::JumpLt(i) => Instr::JumpLt(*i),
            Instr::JumpLe(i) => Instr::JumpLe(*i),
            Instr::BinOp(op) => Instr::BinOp(*op),
            Instr::UnaryOp(op) => Instr::UnaryOp(*op),
            Instr::Dbg => Instr::Dbg,
            Instr::Nop => Instr::Nop,
        }
    }
}

/// The bytecode of one code object.
#[derive(Debug, PartialEq)]
pub struct Bytecode {
    pub code: Vec<Instr>,
}

impl View for Bytecode {
    type V = Seq<InstrV>;

    open spec fn view(&self) -> Seq<InstrV> {
        Seq::new(
            self.code@.len(),
            |i: int|
                if 0 <= i < self.code@.len() {
                    self.code@[i]@
                } else {
                    InstrV::Nop
                },
        )
    }
}

impl Bytecode {
    /// The views of a vector of instructions.
    pub open spec fn new_view(code: Seq<Instr>) -> Seq<InstrV> {
        Seq::new(
            code.len(),
            |i: int|
                if 0 <= i < code.len() {
                    code[i]@
                } else {
                    InstrV::Nop
                },
        )
    }

    /// Wraps a sequence of instructions.
    pub fn new(code: Vec<Instr>) -> (r: Bytecode)
        ensures
            r@ == Bytecode::new_view(code@),
            r@.len() == code@.len(),
            forall|i: int| 0 <= i < code@.len() ==> #[trigger] r@[i] == code@[i]@,
    {
        let r = Bytecode { code };
        proof {
            assert(r@ =~= Bytecode::new_view(r.code@));
        }
        r
    }

    /// The number of instructions.
    pub fn len(&self) -> (n: usize)
        ensures
            n == self@.len(),
    {
        self.code.len()
    }

    /// The instruction at `i`.
    pub fn index(&self, i: usize) -> (r: &Instr)
        requires
            i < self@.len(),
        ensures
            r@ == self@[i as int],
    {
        &self.code[i]
    }
}

impl Clone for Bytecode {
    /// A copy with the same view.
    fn clone(&self) -> (r: Bytecode)
        ensures
            r@ == self@,
    {
        let mut out: Vec<Instr> = Vec::new();
        let mut k: usize = 0;
        while k < self.code.len()
            invariant
                k <= self.code@.len(),
                out@.len() == k,
                forall|i: int| 0 <= i < k ==> #[trigger] out@[i]@ == self.code@[i]@,
            decreases self.code@.len() - k,
        {
            out.push(self.code[k].clone());
            k = k + 1;
        }
        let r = Bytecode { code: out };
        proof {
            assert(r@ =~= self@);
        }
        r
    }
}

impl Default for Bytecode {
    /// An empty bytecode sequence.
    fn default() -> (r: Bytecode)
        ensures
            r@ == Seq::<InstrV>::empty(),
    {
        let r = Bytecode { code: Vec::new() };
        proof {
            assert(r@ =~= Seq::<InstrV>::empty());
        }
        r
    }
}

} // verus!
