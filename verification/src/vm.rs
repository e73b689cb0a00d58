//! The execution engine: a stack machine over call frames, with bounded
//! operand and call stacks, whose single-step transition is stated as a
//! mathematical function of the machine state.

use vstd::prelude::*;
use crate::{CodeHash, VmError};
use crate::bytecode::{BinOp, InstrV, UnaryOp};
use crate::object::{CodeObject, CodeObjV};
use crate::ops::{
    add_vals, cmp_vals, div_vals, mul_vals, neg_val, not_val, rem_vals, res_view, shl_vals,
    shr_vals, sub_vals, value_add, value_compare, value_div, value_eq_op, value_mul, value_neg,
    value_not, value_rem, value_shl, value_shr, value_sub, CmpRes,
};
use crate::store::{Store, StoreError, StoreV};
use crate::value::{truthy, ValV, Value};

verus! {

/// The cap on both the per-frame operand stack and the call stack.
pub const STACK_CAP: usize = 256;

/// An execution context for a code object.
#[derive(Debug)]
pub struct StackFrame {
    /// The code being executed.
    pub code_obj: CodeObject,
    /// The operand stack, top last.
    pub stack: Vec<Value>,
    /// Arguments and locals by index: the first `argcount` slots are the
    /// arguments; a slot is `None` until first stored.
    pub locals: Vec<Option<Value>>,
    /// The instruction pointer.
    pub instruction: usize,
}

/// The mathematical shape of a frame.
pub struct FrameV {
    pub code_obj: CodeObjV,
    pub stack: Seq<ValV>,
    pub locals: Seq<Option<ValV>>,
    pub instruction: usize,
}

/// The view of an optional value.
pub open spec fn opt_val_view(v: Option<Value>) -> Option<ValV> {
    match v {
        Some(x) => Some(x@),
        None => None,
    }
}

impl View for StackFrame {
    type V = FrameV;

    open spec fn view(&self) -> FrameV {
        FrameV {
            code_obj: self.code_obj@,
            stack: Seq::new(
                self.stack@.len(),
                |i: int|
                    if 0 <= i < self.stack@.len() {
                        self.stack@[i]@
                    } else {
                        ValV::Bool(false)
                    },
            ),
            locals: Seq::new(
                self.locals@.len(),
                |i: int|
                    if 0 <= i < self.locals@.len() {
                        opt_val_view(self.locals@[i])
                    } else {
                        None
                    },
            ),
            instruction: self.instruction,
        }
    }
}

/// The virtual machine: a call stack of frames, the stack caps, and a
/// handle to the code store.
#[derive(Debug)]
pub struct Vm {
    /// The call stack, innermost frame last.
    pub call_stack: Vec<StackFrame>,
    /// Cap on each frame's operand stack.
    pub data_stack_cap: usize,
    /// Cap on the call stack.
    pub call_stack_cap: usize,
    /// The code store the machine resolves hashes and names through.
    pub db: Store,
    /// Everything `Dbg` has observed, in order.
    pub dbg_log: Vec<Value>,
}

/// The mathematical shape of the machine.
pub struct VmV {
    pub frames: Seq<FrameV>,
    pub data_cap: usize,
    pub call_cap: usize,
    pub store: StoreV,
    pub dbg: Seq<ValV>,
}

impl View for Vm {
    type V = VmV;

    open spec fn view(&self) -> VmV {
        VmV {
            frames: Seq::new(
                self.call_stack@.len(),
                |i: int|
                    if 0 <= i < self.call_stack@.len() {
                        self.call_stack@[i]@
                    } else {
                        FrameV {
                            code_obj: self.call_stack@[0]@.code_obj,
                            stack: Seq::empty(),
                            locals: Seq::empty(),
                            instruction: 0,
                        }
                    },
            ),
            data_cap: self.data_stack_cap,
            call_cap: self.call_stack_cap,
            store: self.db@,
            dbg: Seq::new(
                self.dbg_log@.len(),
                |i: int|
                    if 0 <= i < self.dbg_log@.len() {
                        self.dbg_log@[i]@
                    } else {
                        ValV::Bool(false)
                    },
            ),
        }
    }
}

/// What one step does: continues in a new state, halts the whole
/// execution with an exit status and a final state, or aborts with an
/// error, leaving the state as it was.
pub enum StepResV {
    Cont(VmV),
    Halt(i32, VmV),
    Abort(VmError),
}

/// The innermost frame.
pub open spec fn top_frame(v: VmV) -> FrameV {
    v.frames.last()
}

/// `v` with the innermost frame replaced.
pub open spec fn with_top(v: VmV, f: FrameV) -> VmV {
    VmV { frames: v.frames.update(v.frames.len() - 1, f), ..v }
}

/// The hash the store binds `name` to (meaningful when one exists).
pub open spec fn name_hash(s: StoreV, name: Seq<char>) -> u128 {
    let i = choose|i: int| 0 <= i < s.names.len() && (#[trigger] s.names[i]).0 == name;
    s.names[i].1
}

/// True when the store holds an object under hash `h`.
pub open spec fn store_has_hash(s: StoreV, h: u128) -> bool {
    crate::store::has_obj(s, h)
}

/// The object the store keeps under hash `h` (meaningful when present).
pub open spec fn store_obj(s: StoreV, h: u128) -> CodeObjV {
    let i = choose|i: int| 0 <= i < s.objects.len() && (#[trigger] s.objects[i]).0 == h;
    s.objects[i].1
}

/// The locals of a fresh callee frame: the first `argcount` slots take
/// the caller's operands in pop order, the rest start unset.
pub open spec fn callee_locals(callee: CodeObjV, caller_stack: Seq<ValV>) -> Seq<Option<ValV>> {
    let n = if callee.argcount >= callee.localnames.len() {
        callee.argcount as int
    } else {
        callee.localnames.len() as int
    };
    Seq::new(
        n as nat,
        |j: int|
            if 0 <= j < callee.argcount {
                Some(caller_stack[caller_stack.len() - 1 - j])
            } else {
                None
            },
    )
}

/// A fresh frame for `callee` consuming `argcount` operands of the
/// caller.
pub open spec fn callee_frame(callee: CodeObjV, caller_stack: Seq<ValV>) -> FrameV {
    FrameV {
        code_obj: callee,
        stack: Seq::empty(),
        locals: callee_locals(callee, caller_stack),
        instruction: 0,
    }
}

/// The result of a conditional jump: the new instruction pointer when
/// `taken`, the fall-through otherwise; a taken jump demands a valid
/// label.
pub open spec fn jump_step(v: VmV, f: FrameV, rest: Seq<ValV>, taken: bool, l: usize) -> StepResV {
    if taken {
        if l >= f.code_obj.labels.len() {
            StepResV::Abort(VmError::LabelIndexOutOfBounds)
        } else {
            StepResV::Cont(
                with_top(
                    v,
                    FrameV { stack: rest, instruction: f.code_obj.labels[l as int], ..f },
                ),
            )
        }
    } else {
        StepResV::Cont(
            with_top(v, FrameV { stack: rest, instruction: (f.instruction + 1) as usize, ..f }),
        )
    }
}

/// A binary operator's step: pop right then left, push the result.
pub open spec fn binop_step(v: VmV, f: FrameV, op: BinOp) -> StepResV {
    if f.stack.len() < 2 {
        StepResV::Abort(VmError::StackUnderflow)
    } else {
        let rhs = f.stack.last();
        let lhs = f.stack[f.stack.len() - 2];
        let rest = f.stack.take(f.stack.len() - 2);
        let res = match op {
            BinOp::Add => add_vals(lhs, rhs),
            BinOp::Mul => mul_vals(lhs, rhs),
            BinOp::Div => div_vals(lhs, rhs),
            BinOp::Sub => sub_vals(lhs, rhs),
            BinOp::Mod => rem_vals(lhs, rhs),
            BinOp::Shl => shl_vals(lhs, rhs),
            BinOp::Shr => shr_vals(lhs, rhs),
            BinOp::And => Ok(
                if !truthy(lhs) {
                    lhs
                } else {
                    rhs
                },
            ),
            BinOp::Or => Ok(
                if truthy(lhs) {
                    lhs
                } else {
                    rhs
                },
            ),
            BinOp::Eq => Ok(ValV::Bool(lhs == rhs)),
        };
        match res {
            Ok(out) => StepResV::Cont(
                with_top(
                    v,
                    FrameV {
                        stack: rest.push(out),
                        instruction: (f.instruction + 1) as usize,
                        ..f
                    },
                ),
            ),
            Err(e) => StepResV::Abort(e),
        }
    }
}

/// A unary operator's step: pop one operand, push the result.
pub open spec fn unaryop_step(v: VmV, f: FrameV, op: UnaryOp) -> StepResV {
    if f.stack.len() < 1 {
        StepResV::Abort(VmError::StackUnderflow)
    } else {
        let arg = f.stack.last();
        let rest = f.stack.drop_last();
        let res = match op {
            UnaryOp::Not => not_val(arg),
            UnaryOp::Neg => neg_val(arg),
        };
        match res {
            Ok(out) => StepResV::Cont(
                with_top(
                    v,
                    FrameV {
                        stack: rest.push(out),
                        instruction: (f.instruction + 1) as usize,
                        ..f
                    },
                ),
            ),
            Err(e) => StepResV::Abort(e),
        }
    }
}

/// An order-comparison jump: pop right then left, compare, branch on the
/// outcomes in `on`.
pub open spec fn cmp_jump_step(
    v: VmV,
    f: FrameV,
    l: usize,
    lt: bool,
    eq: bool,
    gt: bool,
) -> StepResV {
    if f.stack.len() < 2 {
        StepResV::Abort(VmError::StackUnderflow)
    } else {
        let rhs = f.stack.last();
        let lhs = f.stack[f.stack.len() - 2];
        let rest = f.stack.take(f.stack.len() - 2);
        match cmp_vals(lhs, rhs) {
            Err(e) => StepResV::Abort(e),
            Ok(c) => {
                let taken = match c {
                    CmpRes::Lt => lt,
                    CmpRes::Eq => eq,
                    CmpRes::Gt => gt,
                };
                jump_step(v, f, rest, taken, l)
            },
        }
    }
}

/// The machine's single-step transition. The innermost frame's current
/// instruction is decoded and applied; running past the end of the code
/// halts the whole execution with status 0.
pub open spec fn step_model(v: VmV) -> StepResV {
    let f = top_frame(v);
    let code = f.code_obj.code;
    if v.frames.len() == 0 {
        StepResV::Halt(0, v)
    } else if f.instruction >= code.len() {
        StepResV::Halt(0, v)
    } else {
        let ip1 = (f.instruction + 1) as usize;
        match code[f.instruction as int] {
            InstrV::LoadArg(i) => {
                if i >= f.code_obj.argcount || i >= f.locals.len() {
                    StepResV::Abort(VmError::ArgIndexOutOfBounds)
                } else if f.stack.len() >= v.data_cap {
                    StepResV::Abort(VmError::OperandStackOverflow)
                } else {
                    match f.locals[i as int] {
                        None => StepResV::Abort(VmError::UninitializedLocal),
                        Some(val) => StepResV::Cont(
                            with_top(
                                v,
                                FrameV { stack: f.stack.push(val), instruction: ip1, ..f },
                            ),
                        ),
                    }
                }
            },
            InstrV::LoadLocal(i) => {
                if f.code_obj.argcount + i >= f.locals.len() {
                    StepResV::Abort(VmError::LocalIndexOutOfBounds)
                } else if f.stack.len() >= v.data_cap {
                    StepResV::Abort(VmError::OperandStackOverflow)
                } else {
                    match f.locals[f.code_obj.argcount + i] {
                        None => StepResV::Abort(VmError::UninitializedLocal),
                        Some(val) => StepResV::Cont(
                            with_top(
                                v,
                                FrameV { stack: f.stack.push(val), instruction: ip1, ..f },
                            ),
                        ),
                    }
                }
            },
            InstrV::LoadLit(i) => {
                if i >= f.code_obj.litpool.len() {
                    StepResV::Abort(VmError::LitIndexOutOfBounds)
                } else if f.stack.len() >= v.data_cap {
                    StepResV::Abort(VmError::OperandStackOverflow)
                } else {
                    StepResV::Cont(
                        with_top(
                            v,
                            FrameV {
                                stack: f.stack.push(f.code_obj.litpool[i as int]),
                                instruction: ip1,
                                ..f
                            },
                        ),
                    )
                }
            },
            InstrV::StoreLocal(i) => {
                if f.code_obj.argcount + i >= f.locals.len() {
                    StepResV::Abort(VmError::LocalIndexOutOfBounds)
                } else if f.stack.len() == 0 {
                    StepResV::Abort(VmError::StackUnderflow)
                } else {
                    StepResV::Cont(
                        with_top(
                            v,
                            FrameV {
                                stack: f.stack.drop_last(),
                                locals: f.locals.update(
                                    f.code_obj.argcount + i,
                                    Some(f.stack.last()),
                                ),
                                instruction: ip1,
                                ..f
                            },
                        ),
                    )
                }
            },
            InstrV::Pop => {
                if f.stack.len() == 0 {
                    StepResV::Abort(VmError::StackUnderflow)
                } else {
                    StepResV::Cont(
                        with_top(
                            v,
                            FrameV { stack: f.stack.drop_last(), instruction: ip1, ..f },
                        ),
                    )
                }
            },
            InstrV::Dup => {
                if f.stack.len() == 0 {
                    StepResV::Abort(VmError::StackUnderflow)
                } else if f.stack.len() >= v.data_cap {
                    StepResV::Abort(VmError::OperandStackOverflow)
                } else {
                    StepResV::Cont(
                        with_top(
                            v,
                            FrameV {
                                stack: f.stack.push(f.stack.last()),
                                instruction: ip1,
                                ..f
                            },
                        ),
                    )
                }
            },
            InstrV::LoadFunc(h) => {
                if f.stack.len() >= v.data_cap {
                    StepResV::Abort(VmError::OperandStackOverflow)
                } else {
                    StepResV::Cont(
                        with_top(
                            v,
                            FrameV {
                                stack: f.stack.push(ValV::Hash(h)),
                                instruction: ip1,
                                ..f
                            },
                        ),
                    )
                }
            },
            InstrV::LoadDyn(name) => {
                if !crate::store::has_name(v.store, name) {
                    StepResV::Abort(VmError::UnknownName)
                } else if f.stack.len() >= v.data_cap {
                    StepResV::Abort(VmError::OperandStackOverflow)
                } else {
                    StepResV::Cont(
                        with_top(
                            v,
                            FrameV {
                                stack: f.stack.push(ValV::Hash(name_hash(v.store, name))),
                                instruction: ip1,
                                ..f
                            },
                        ),
                    )
                }
            },
            InstrV::Call => {
                if f.stack.len() == 0 {
                    StepResV::Abort(VmError::StackUnderflow)
                } else {
                    match f.stack.last() {
                        ValV::Hash(h) => {
                            if !store_has_hash(v.store, h) {
                                StepResV::Abort(VmError::UnknownHash)
                            } else {
                                let callee = store_obj(v.store, h);
                                let rest = f.stack.drop_last();
                                if rest.len() < callee.argcount {
                                    StepResV::Abort(VmError::InsufficientArguments)
                                } else if v.frames.len() >= v.call_cap {
                                    StepResV::Abort(VmError::CallStackOverflow)
                                } else {
                                    let caller = FrameV {
                                        stack: rest.take(rest.len() - callee.argcount),
                                        instruction: ip1,
                                        ..f
                                    };
                                    StepResV::Cont(
                                        VmV {
                                            frames: with_top(v, caller).frames.push(
                                                callee_frame(callee, rest),
                                            ),
                                            ..v
                                        },
                                    )
                                }
                            }
                        },
                        _ => StepResV::Abort(VmError::TypeMismatch),
                    }
                }
            },
            InstrV::CallSelf => {
                let callee = f.code_obj;
                if f.stack.len() < callee.argcount {
                    StepResV::Abort(VmError::InsufficientArguments)
                } else if v.frames.len() >= v.call_cap {
                    StepResV::Abort(VmError::CallStackOverflow)
                } else {
                    let caller = FrameV {
                        stack: f.stack.take(f.stack.len() - callee.argcount),
                        instruction: ip1,
                        ..f
                    };
                    StepResV::Cont(
                        VmV {
                            frames: with_top(v, caller).frames.push(
                                callee_frame(callee, f.stack),
                            ),
                            ..v
                        },
                    )
                }
            },
            InstrV::Return => StepResV::Cont(VmV { frames: v.frames.drop_last(), ..v }),
            InstrV::ReturnVal => {
                if f.stack.len() == 0 {
                    StepResV::Abort(VmError::StackUnderflow)
                } else {
                    let val = f.stack.last();
                    if v.frames.len() == 1 {
                        match val {
                            ValV::I32(c) => StepResV::Halt(
                                c,
                                with_top(
                                    v,
                                    FrameV {
                                        stack: f.stack.drop_last(),
                                        instruction: ip1,
                                        ..f
                                    },
                                ),
                            ),
                            _ => StepResV::Abort(VmError::NonIntegerMainReturn),
                        }
                    } else {
                        let caller = v.frames[v.frames.len() - 2];
                        if caller.stack.len() >= v.data_cap {
                            StepResV::Abort(VmError::OperandStackOverflow)
                        } else {
                            StepResV::Cont(
                                VmV {
                                    frames: v.frames.drop_last().update(
                                        v.frames.len() - 2,
                                        FrameV { stack: caller.stack.push(val), ..caller },
                                    ),
                                    ..v
                                },
                            )
                        }
                    }
                }
            },
            InstrV::Jump(l) => jump_step(v, f, f.stack, true, l),
            InstrV::JumpT(l) => {
                if f.stack.len() == 0 {
                    StepResV::Abort(VmError::StackUnderflow)
                } else {
                    jump_step(
                        v,
                        f,
                        f.stack.drop_last(),
                        f.stack.last() == ValV::Bool(true),
                        l,
                    )
                }
            },
            InstrV::JumpF(l) => {
                if f.stack.len() == 0 {
                    StepResV::Abort(VmError::StackUnderflow)
                } else {
                    jump_step(
                        v,
                        f,
                        f.stack.drop_last(),
                        f.stack.last() == ValV::Bool(false),
                        l,
                    )
                }
            },
            InstrV::JumpEq(l) => {
                if f.stack.len() < 2 {
                    StepResV::Abort(VmError::StackUnderflow)
                } else {
                    jump_step(
                        v,
                        f,
                        f.stack.take(f.stack.len() - 2),
                        f.stack[f.stack.len() - 2] == f.stack.last(),
                        l,
                    )
                }
            },
            InstrV::JumpNe(l) => {
                if f.stack.len() < 2 {
                    StepResV::Abort(VmError::StackUnderflow)
                } else {
                    jump_step(
                        v,
                        f,
                        f.stack.take(f.stack.len() - 2),
                        f.stack[f.stack.len() - 2] != f.stack.last(),
                        l,
                    )
                }
            },
            InstrV::JumpGt(l) => cmp_jump_step(v, f, l, false, false, true),
            InstrV::JumpGe(l) => cmp_jump_step(v, f, l, false, true, true),
            InstrV::JumpLt(l) => cmp_jump_step(v, f, l, true, false, false),
            InstrV::JumpLe(l) => cmp_jump_step(v, f, l, true, true, false),
            InstrV::BinOp(op) => binop_step(v, f, op),
            InstrV::UnaryOp(op) => unaryop_step(v, f, op),
            InstrV::Dbg => {
                if f.stack.len() == 0 {
                    StepResV::Abort(VmError::StackUnderflow)
                } else {
                    StepResV::Cont(
                        VmV {
                            frames: with_top(v, FrameV { instruction: ip1, ..f }).frames,
                            dbg: v.dbg.push(f.stack.last()),
                            ..v
                        },
                    )
                }
            },
            InstrV::Nop => StepResV::Cont(with_top(v, FrameV { instruction: ip1, ..f })),
        }
    }
}

/// How many steps a run may still take, and what it ends in: an exit
/// status with a final state, an error with the state at the failing
/// step, or `Spin` when the budget ran out first.
pub enum RunResV {
    Halted(i32, VmV),
    Aborted(VmError, VmV),
    Spin(VmV),
}

/// The machine's multi-step execution, as iterated [`step_model`]: runs
/// until the call stack empties, a step halts or aborts, or the budget
/// runs out.
pub open spec fn run_model(v: VmV, fuel: nat) -> RunResV
    decreases fuel,
{
    if v.frames.len() == 0 {
        RunResV::Halted(0, v)
    } else if fuel == 0 {
        RunResV::Spin(v)
    } else {
        match step_model(v) {
            StepResV::Cont(w) => run_model(w, (fuel - 1) as nat),
            StepResV::Halt(c, w) => RunResV::Halted(c, w),
            StepResV::Abort(e) => RunResV::Aborted(e, v),
        }
    }
}

} // verus!

verus! {

/// The visible outcome of one executed step.
#[derive(Debug, Clone, Copy, PartialEq, Eq, Structural)]
pub enum StepOutcome {
    /// The machine can take another step.
    Continue,
    /// The whole execution finished with this exit status.
    Halt(i32),
}

/// Relates one executed step to [`step_model`]: the machine moves to the
/// model's state and reports the model's outcome; an abort leaves the
/// state untouched.
pub open spec fn step_rel(v0: VmV, v1: VmV, r: Result<StepOutcome, VmError>) -> bool {
    match step_model(v0) {
        StepResV::Cont(w) => r == Ok::<StepOutcome, VmError>(StepOutcome::Continue) && v1 == w,
        StepResV::Halt(c, w) => r == Ok::<StepOutcome, VmError>(StepOutcome::Halt(c)) && v1 == w,
        StepResV::Abort(e) => r == Err::<StepOutcome, VmError>(e) && v1 == v0,
    }
}

impl Vm {
    /// The machine's own coherence: its store is coherent.
    pub open spec fn inv(&self) -> bool {
        self.db.wf()
    }

    /// Executes one binary operator.
    #[verifier::rlimit(100)]
    fn step_binop(&mut self, op: BinOp) -> (r: Result<StepOutcome, VmError>)
        requires
            old(self)@.frames.len() > 0,
            top_frame(old(self)@).instruction < top_frame(old(self)@).code_obj.code.len(),
            top_frame(old(self)@).code_obj.code[top_frame(old(self)@).instruction as int]
                == InstrV::BinOp(op),
        ensures
            step_rel(old(self)@, final(self)@, r),
            final(self).db == old(self).db,
            final(self).data_stack_cap == old(self).data_stack_cap,
            final(self).call_stack_cap == old(self).call_stack_cap,
    {
        let ghost v0 = self@;
        let ghost f0 = top_frame(v0);
        let mut frame = self.call_stack.pop().unwrap();
        proof {
            assert(frame@ == f0);
        }
        let clen = frame.code_obj.code.len();
        if frame.stack.len() < 2 {
            self.call_stack.push(frame);
            proof {
                assert(self@.frames =~= v0.frames);
                assert(self@.dbg =~= v0.dbg);
                assert(self@ == v0);
            }
            return Err(VmError::StackUnderflow);
        }
        let rhs = frame.stack[frame.stack.len() - 1].clone();
        let lhs = frame.stack[frame.stack.len() - 2].clone();
        proof {
            assert(rhs@ == f0.stack.last());
            assert(lhs@ == f0.stack[f0.stack.len() - 2]);
        }
        let res: Result<Value, VmError> = match op {
            BinOp::Add => value_add(lhs, rhs),
            BinOp::Mul => value_mul(lhs, rhs),
            BinOp::Div => value_div(lhs, rhs),
            BinOp::Sub => value_sub(lhs, rhs),
            BinOp::Mod => value_rem(lhs, rhs),
            BinOp::Shl => value_shl(lhs, rhs),
            BinOp::Shr => value_shr(lhs, rhs),
            BinOp::And => Ok(lhs.and(rhs)),
            BinOp::Or => Ok(lhs.or(rhs)),
            BinOp::Eq => Ok(value_eq_op(&lhs, &rhs)),
        };
        match res {
            Err(e) => {
                self.call_stack.push(frame);
                proof {
                    assert(self@.frames =~= v0.frames);
                    assert(self@.dbg =~= v0.dbg);
                    assert(self@ == v0);
                    assert(step_model(v0) == StepResV::Abort(e));
                }
                Err(e)
            },
            Ok(out) => {
                frame.stack.pop();
                frame.stack.pop();
                frame.stack.push(out);
                frame.instruction = frame.instruction + 1;
                self.call_stack.push(frame);
                proof {
                    let w = match step_model(v0) {
                        StepResV::Cont(w) => w,
                        _ => v0,
                    };
                    assert(step_model(v0) is Cont);
                    assert(frame@.stack =~= f0.stack.take(f0.stack.len() - 2).push(out@));
                    assert(frame@.locals =~= f0.locals);
                    assert(frame@ == top_frame(w));
                    assert(self@.frames =~= w.frames);
                    assert(self@.dbg =~= w.dbg);
                    assert(self@ == w);
                }
                Ok(StepOutcome::Continue)
            },
        }
    }
}

} // verus!

verus! {

impl Vm {
    /// Executes one unary operator.
    #[verifier::rlimit(100)]
    fn step_unaryop(&mut self, op: UnaryOp) -> (r: Result<StepOutcome, VmError>)
        requires
            old(self)@.frames.len() > 0,
            top_frame(old(self)@).instruction < top_frame(old(self)@).code_obj.code.len(),
            top_frame(old(self)@).code_obj.code[top_frame(old(self)@).instruction as int]
                == InstrV::UnaryOp(op),
        ensures
            step_rel(old(self)@, final(self)@, r),
            final(self).db == old(self).db,
            final(self).data_stack_cap == old(self).data_stack_cap,
            final(self).call_stack_cap == old(self).call_stack_cap,
    {
        let ghost v0 = self@;
        let ghost f0 = top_frame(v0);
        let mut frame = self.call_stack.pop().unwrap();
        proof {
            assert(frame@ == f0);
        }
        let clen = frame.code_obj.code.len();
        if frame.stack.len() == 0 {
            self.call_stack.push(frame);
            proof {
                assert(self@.frames =~= v0.frames);
                assert(self@.dbg =~= v0.dbg);
                assert(self@ == v0);
            }
            return Err(VmError::StackUnderflow);
        }
        let arg = frame.stack[frame.stack.len() - 1].clone();
        proof {
            assert(arg@ == f0.stack.last());
        }
        let res: Result<Value, VmError> = match op {
            UnaryOp::Not => value_not(arg),
            UnaryOp::Neg => value_neg(arg),
        };
        match res {
            Err(e) => {
                self.call_stack.push(frame);
                proof {
                    assert(self@.frames =~= v0.frames);
                    assert(self@.dbg =~= v0.dbg);
                    assert(self@ == v0);
                    assert(step_model(v0) == StepResV::Abort(e));
                }
                Err(e)
            },
            Ok(out) => {
                frame.stack.pop();
                frame.stack.push(out);
                frame.instruction = frame.instruction + 1;
                self.call_stack.push(frame);
                proof {
                    let w = match step_model(v0) {
                        StepResV::Cont(w) => w,
                        _ => v0,
                    };
                    assert(step_model(v0) is Cont);
                    assert(frame@.stack =~= f0.stack.drop_last().push(out@));
                    assert(frame@.locals =~= f0.locals);
                    assert(frame@ == top_frame(w));
                    assert(self@.frames =~= w.frames);
                    assert(self@.dbg =~= w.dbg);
                    assert(self@ == w);
                }
                Ok(StepOutcome::Continue)
            },
        }
    }

    /// Executes `Nop`.
    fn step_nop(&mut self) -> (r: Result<StepOutcome, VmError>)
        requires
            old(self)@.frames.len() > 0,
            top_frame(old(self)@).instruction < top_frame(old(self)@).code_obj.code.len(),
            top_frame(old(self)@).code_obj.code[top_frame(old(self)@).instruction as int]
                == InstrV::Nop,
        ensures
            step_rel(old(self)@, final(self)@, r),
            final(self).db == old(self).db,
            final(self).data_stack_cap == old(self).data_stack_cap,
            final(self).call_stack_cap == old(self).call_stack_cap,
    {
        let ghost v0 = self@;
        let ghost f0 = top_frame(v0);
        let mut frame = self.call_stack.pop().unwrap();
        proof {
            assert(frame@ == f0);
        }
        let clen = frame.code_obj.code.len();
        frame.instruction = frame.instruction + 1;
        self.call_stack.push(frame);
        proof {
            let w = match step_model(v0) {
                StepResV::Cont(w) => w,
                _ => v0,
            };
            assert(step_model(v0) is Cont);
            assert(frame@.stack =~= f0.stack);
            assert(frame@.locals =~= f0.locals);
            assert(frame@ == top_frame(w));
            assert(self@.frames =~= w.frames);
            assert(self@.dbg =~= w.dbg);
            assert(self@ == w);
        }
        Ok(StepOutcome::Continue)
    }

    /// Executes `Dbg`: records the top of the stack without consuming it.
    fn step_dbg(&mut self) -> (r: Result<StepOutcome, VmError>)
        requires
            old(self)@.frames.len() > 0,
            top_frame(old(self)@).instruction < top_frame(old(self)@).code_obj.code.len(),
            top_frame(old(self)@).code_obj.code[top_frame(old(self)@).instruction as int]
                == InstrV::Dbg,
        ensures
            step_rel(old(self)@, final(self)@, r),
            final(self).db == old(self).db,
            final(self).data_stack_cap == old(self).data_stack_cap,
            final(self).call_stack_cap == old(self).call_stack_cap,
    {
        let ghost v0 = self@;
        let ghost f0 = top_frame(v0);
        let mut frame = self.call_stack.pop().unwrap();
        proof {
            assert(frame@ == f0);
        }
        let clen = frame.code_obj.code.len();
        if frame.stack.len() == 0 {
            self.call_stack.push(frame);
            proof {
                assert(self@.frames =~= v0.frames);
                assert(self@.dbg =~= v0.dbg);
                assert(self@ == v0);
            }
            return Err(VmError::StackUnderflow);
        }
        let observed = frame.stack[frame.stack.len() - 1].clone();
        proof {
            assert(observed@ == f0.stack.last());
        }
        self.dbg_log.push(observed);
        frame.instruction = frame.instruction + 1;
        self.call_stack.push(frame);
        proof {
            let w = match step_model(v0) {
                StepResV::Cont(w) => w,
                _ => v0,
            };
            assert(step_model(v0) is Cont);
            assert(frame@.stack =~= f0.stack);
            assert(frame@.locals =~= f0.locals);
            assert(frame@ == top_frame(w));
            assert(self@.frames =~= w.frames);
            assert(self@.dbg =~= w.dbg);
            assert(self@ == w);
        }
        Ok(StepOutcome::Continue)
    }

    /// Executes `Pop`.
    fn step_pop(&mut self) -> (r: Result<StepOutcome, VmError>)
        requires
            old(self)@.frames.len() > 0,
            top_frame(old(self)@).instruction < top_frame(old(self)@).code_obj.code.len(),
            top_frame(old(self)@).code_obj.code[top_frame(old(self)@).instruction as int]
                == InstrV::Pop,
        ensures
            step_rel(old(self)@, final(self)@, r),
            final(self).db == old(self).db,
            final(self).data_stack_cap == old(self).data_stack_cap,
            final(self).call_stack_cap == old(self).call_stack_cap,
    {
        let ghost v0 = self@;
        let ghost f0 = top_frame(v0);
        let mut frame = self.call_stack.pop().unwrap();
        proof {
            assert(frame@ == f0);
        }
        let clen = frame.code_obj.code.len();
        if frame.stack.len() == 0 {
            self.call_stack.push(frame);
            proof {
                assert(self@.frames =~= v0.frames);
                assert(self@.dbg =~= v0.dbg);
                assert(self@ == v0);
            }
            return Err(VmError::StackUnderflow);
        }
        frame.stack.pop();
        frame.instruction = frame.instruction + 1;
        self.call_stack.push(frame);
        proof {
            let w = match step_model(v0) {
                StepResV::Cont(w) => w,
                _ => v0,
            };
            assert(step_model(v0) is Cont);
            assert(frame@.stack =~= f0.stack.drop_last());
            assert(frame@.locals =~= f0.locals);
            assert(frame@ == top_frame(w));
            assert(self@.frames =~= w.frames);
            assert(self@.dbg =~= w.dbg);
            assert(self@ == w);
        }
        Ok(StepOutcome::Continue)
    }

    /// Executes `Dup`.
    fn step_dup(&mut self) -> (r: Result<StepOutcome, VmError>)
        requires
            old(self)@.frames.len() > 0,
            top_frame(old(self)@).instruction < top_frame(old(self)@).code_obj.code.len(),
            top_frame(old(self)@).code_obj.code[top_frame(old(self)@).instruction as int]
                == InstrV::Dup,
        ensures
            step_rel(old(self)@, final(self)@, r),
            final(self).db == old(self).db,
            final(self).data_stack_cap == old(self).data_stack_cap,
            final(self).call_stack_cap == old(self).call_stack_cap,
    {
        let ghost v0 = self@;
        let ghost f0 = top_frame(v0);
        let mut frame = self.call_stack.pop().unwrap();
        proof {
            assert(frame@ == f0);
        }
        let clen = frame.code_obj.code.len();
        if frame.stack.len() == 0 {
            self.call_stack.push(frame);
            proof {
                assert(self@.frames =~= v0.frames);
                assert(self@.dbg =~= v0.dbg);
                assert(self@ == v0);
            }
            return Err(VmError::StackUnderflow);
        }
        if frame.stack.len() >= self.data_stack_cap {
            self.call_stack.push(frame);
            proof {
                assert(self@.frames =~= v0.frames);
                assert(self@.dbg =~= v0.dbg);
                assert(self@ == v0);
            }
            return Err(VmError::OperandStackOverflow);
        }
        let top = frame.stack[frame.stack.len() - 1].clone();
        proof {
            assert(top@ == f0.stack.last());
        }
        frame.stack.push(top);
        frame.instruction = frame.instruction + 1;
        self.call_stack.push(frame);
        proof {
            let w = match step_model(v0) {
                StepResV::Cont(w) => w,
                _ => v0,
            };
            assert(step_model(v0) is Cont);
            assert(frame@.stack =~= f0.stack.push(f0.stack.last()));
            assert(frame@.locals =~= f0.locals);
            assert(frame@ == top_frame(w));
            assert(self@.frames =~= w.frames);
            assert(self@.dbg =~= w.dbg);
            assert(self@ == w);
        }
        Ok(StepOutcome::Continue)
    }
}

} // verus!

verus! {

impl Vm {
    /// Executes `LoadArg`.
    #[verifier::rlimit(100)]
    fn step_load_arg(&mut self, i: usize) -> (r: Result<StepOutcome, VmError>)
        requires
            old(self)@.frames.len() > 0,
            top_frame(old(self)@).instruction < top_frame(old(self)@).code_obj.code.len(),
            top_frame(old(self)@).code_obj.code[top_frame(old(self)@).instruction as int]
                == InstrV::LoadArg(i),
        ensures
            step_rel(old(self)@, final(self)@, r),
            final(self).db == old(self).db,
            final(self).data_stack_cap == old(self).data_stack_cap,
            final(self).call_stack_cap == old(self).call_stack_cap,
    {
        let ghost v0 = self@;
        let ghost f0 = top_frame(v0);
        let mut frame = self.call_stack.pop().unwrap();
        proof {
            assert(frame@ == f0);
        }
        let clen = frame.code_obj.code.len();
        if i >= frame.code_obj.argcount || i >= frame.locals.len() {
            self.call_stack.push(frame);
            proof {
                assert(self@.frames =~= v0.frames);
                assert(self@.dbg =~= v0.dbg);
                assert(self@ == v0);
            }
            return Err(VmError::ArgIndexOutOfBounds);
        }
        if frame.stack.len() >= self.data_stack_cap {
            self.call_stack.push(frame);
            proof {
                assert(self@.frames =~= v0.frames);
                assert(self@.dbg =~= v0.dbg);
                assert(self@ == v0);
            }
            return Err(VmError::OperandStackOverflow);
        }
        match &frame.locals[i] {
            None => {
                proof {
                    assert(f0.locals[i as int] is None);
                }
                self.call_stack.push(frame);
                proof {
                    assert(self@.frames =~= v0.frames);
                    assert(self@.dbg =~= v0.dbg);
                    assert(self@ == v0);
                }
                Err(VmError::UninitializedLocal)
            },
            Some(val) => {
                let copy = val.clone();
                proof {
                    assert(f0.locals[i as int] == Some(copy@));
                }
                frame.stack.push(copy);
                frame.instruction = frame.instruction + 1;
                self.call_stack.push(frame);
                proof {
                    let w = match step_model(v0) {
                        StepResV::Cont(w) => w,
                        _ => v0,
                    };
                    assert(step_model(v0) is Cont);
                    assert(frame@.stack =~= f0.stack.push(f0.locals[i as int]->Some_0));
                    assert(frame@.locals =~= f0.locals);
                    assert(frame@ == top_frame(w));
                    assert(self@.frames =~= w.frames);
                    assert(self@.dbg =~= w.dbg);
                    assert(self@ == w);
                }
                Ok(StepOutcome::Continue)
            },
        }
    }

    /// Executes `LoadLocal`.
    #[verifier::rlimit(100)]
    fn step_load_local(&mut self, i: usize) -> (r: Result<StepOutcome, VmError>)
        requires
            old(self)@.frames.len() > 0,
            top_frame(old(self)@).instruction < top_frame(old(self)@).code_obj.code.len(),
            top_frame(old(self)@).code_obj.code[top_frame(old(self)@).instruction as int]
                == InstrV::LoadLocal(i),
        ensures
            step_rel(old(self)@, final(self)@, r),
            final(self).db == old(self).db,
            final(self).data_stack_cap == old(self).data_stack_cap,
            final(self).call_stack_cap == old(self).call_stack_cap,
    {
        let ghost v0 = self@;
        let ghost f0 = top_frame(v0);
        let mut frame = self.call_stack.pop().unwrap();
        proof {
            assert(frame@ == f0);
        }
        let clen = frame.code_obj.code.len();
        let ll = frame.locals.len();
        proof {
            assert(f0.locals.len() == ll);
        }
        let k = match frame.code_obj.argcount.checked_add(i) {
            Some(k) => k,
            None => {
                self.call_stack.push(frame);
                proof {
                    assert(f0.code_obj.argcount + i > usize::MAX);
                    assert(f0.code_obj.argcount + i >= f0.locals.len());
                    assert(self@.frames =~= v0.frames);
                    assert(self@.dbg =~= v0.dbg);
                    assert(self@ == v0);
                }
                return Err(VmError::LocalIndexOutOfBounds);
            },
        };
        if k >= frame.locals.len() {
            self.call_stack.push(frame);
            proof {
                assert(self@.frames =~= v0.frames);
                assert(self@.dbg =~= v0.dbg);
                assert(self@ == v0);
            }
            return Err(VmError::LocalIndexOutOfBounds);
        }
        if frame.stack.len() >= self.data_stack_cap {
            self.call_stack.push(frame);
            proof {
                assert(self@.frames =~= v0.frames);
                assert(self@.dbg =~= v0.dbg);
                assert(self@ == v0);
            }
            return Err(VmError::OperandStackOverflow);
        }
        match &frame.locals[k] {
            None => {
                proof {
                    assert(f0.locals[f0.code_obj.argcount + i] is None);
                }
                self.call_stack.push(frame);
                proof {
                    assert(self@.frames =~= v0.frames);
                    assert(self@.dbg =~= v0.dbg);
                    assert(self@ == v0);
                }
                Err(VmError::UninitializedLocal)
            },
            Some(val) => {
                let copy = val.clone();
                proof {
                    assert(f0.locals[f0.code_obj.argcount + i] == Some(copy@));
                }
                frame.stack.push(copy);
                frame.instruction = frame.instruction + 1;
                self.call_stack.push(frame);
                proof {
                    let w = match step_model(v0) {
                        StepResV::Cont(w) => w,
                        _ => v0,
                    };
                    assert(step_model(v0) is Cont);
                    assert(frame@.stack =~= f0.stack.push(
                        f0.locals[f0.code_obj.argcount + i]->Some_0,
                    ));
                    assert(frame@.locals =~= f0.locals);
                    assert(frame@ == top_frame(w));
                    assert(self@.frames =~= w.frames);
                    assert(self@.dbg =~= w.dbg);
                    assert(self@ == w);
                }
                Ok(StepOutcome::Continue)
            },
        }
    }

    /// Executes `LoadLit`.
    #[verifier::rlimit(100)]
    fn step_load_lit(&mut self, i: usize) -> (r: Result<StepOutcome, VmError>)
        requires
            old(self)@.frames.len() > 0,
            top_frame(old(self)@).instruction < top_frame(old(self)@).code_obj.code.len(),
            top_frame(old(self)@).code_obj.code[top_frame(old(self)@).instruction as int]
                == InstrV::LoadLit(i),
        ensures
            step_rel(old(self)@, final(self)@, r),
            final(self).db == old(self).db,
            final(self).data_stack_cap == old(self).data_stack_cap,
            final(self).call_stack_cap == old(self).call_stack_cap,
    {
        let ghost v0 = self@;
        let ghost f0 = top_frame(v0);
        let mut frame = self.call_stack.pop().unwrap();
        proof {
            assert(frame@ == f0);
        }
        let clen = frame.code_obj.code.len();
        if i >= frame.litpool_len() {
            self.call_stack.push(frame);
            proof {
                assert(self@.frames =~= v0.frames);
                assert(self@.dbg =~= v0.dbg);
                assert(self@ == v0);
            }
            return Err(VmError::LitIndexOutOfBounds);
        }
        if frame.stack.len() >= self.data_stack_cap {
            self.call_stack.push(frame);
            proof {
                assert(self@.frames =~= v0.frames);
                assert(self@.dbg =~= v0.dbg);
                assert(self@ == v0);
            }
            return Err(VmError::OperandStackOverflow);
        }
        let lit = frame.code_obj.litpool[i].clone();
        proof {
            assert(lit@ == f0.code_obj.litpool[i as int]);
        }
        frame.stack.push(lit);
        frame.instruction = frame.instruction + 1;
        self.call_stack.push(frame);
        proof {
            let w = match step_model(v0) {
                StepResV::Cont(w) => w,
                _ => v0,
            };
            assert(step_model(v0) is Cont);
            assert(frame@.stack =~= f0.stack.push(f0.code_obj.litpool[i as int]));
            assert(frame@.locals =~= f0.locals);
            assert(frame@ == top_frame(w));
            assert(self@.frames =~= w.frames);
            assert(self@.dbg =~= w.dbg);
            assert(self@ == w);
        }
        Ok(StepOutcome::Continue)
    }

    /// Executes `StoreLocal`.
    #[verifier::rlimit(100)]
    fn step_store_local(&mut self, i: usize) -> (r: Result<StepOutcome, VmError>)
        requires
            old(self)@.frames.len() > 0,
            top_frame(old(self)@).instruction < top_frame(old(self)@).code_obj.code.len(),
            top_frame(old(self)@).code_obj.code[top_frame(old(self)@).instruction as int]
                == InstrV::StoreLocal(i),
        ensures
            step_rel(old(self)@, final(self)@, r),
            final(self).db == old(self).db,
            final(self).data_stack_cap == old(self).data_stack_cap,
            final(self).call_stack_cap == old(self).call_stack_cap,
    {
        let ghost v0 = self@;
        let ghost f0 = top_frame(v0);
        let mut frame = self.call_stack.pop().unwrap();
        proof {
            assert(frame@ == f0);
        }
        let clen = frame.code_obj.code.len();
        let ll = frame.locals.len();
        proof {
            assert(f0.locals.len() == ll);
        }
        let k = match frame.code_obj.argcount.checked_add(i) {
            Some(k) => k,
            None => {
                self.call_stack.push(frame);
                proof {
                    assert(f0.code_obj.argcount + i > usize::MAX);
                    assert(f0.code_obj.argcount + i >= f0.locals.len());
                    assert(self@.frames =~= v0.frames);
                    assert(self@.dbg =~= v0.dbg);
                    assert(self@ == v0);
                }
                return Err(VmError::LocalIndexOutOfBounds);
            },
        };
        if k >= frame.locals.len() {
            self.call_stack.push(frame);
            proof {
                assert(self@.frames =~= v0.frames);
                assert(self@.dbg =~= v0.dbg);
                assert(self@ == v0);
            }
            return Err(VmError::LocalIndexOutOfBounds);
        }
        if frame.stack.len() == 0 {
            self.call_stack.push(frame);
            proof {
                assert(self@.frames =~= v0.frames);
                assert(self@.dbg =~= v0.dbg);
                assert(self@ == v0);
            }
            return Err(VmError::StackUnderflow);
        }
        let val = frame.stack.pop().unwrap();
        proof {
            assert(val@ == f0.stack.last());
        }
        frame.locals.set(k, Some(val));
        frame.instruction = frame.instruction + 1;
        self.call_stack.push(frame);
        proof {
            let w = match step_model(v0) {
                StepResV::Cont(w) => w,
                _ => v0,
            };
            assert(step_model(v0) is Cont);
            assert(frame@.stack =~= f0.stack.drop_last());
            assert(frame@.locals =~= f0.locals.update(
                f0.code_obj.argcount + i,
                Some(f0.stack.last()),
            ));
            assert(frame@ == top_frame(w));
            assert(self@.frames =~= w.frames);
            assert(self@.dbg =~= w.dbg);
            assert(self@ == w);
        }
        Ok(StepOutcome::Continue)
    }

    /// Executes `LoadFunc`.
    fn step_load_func(&mut self, h: CodeHash) -> (r: Result<StepOutcome, VmError>)
        requires
            old(self)@.frames.len() > 0,
            top_frame(old(self)@).instruction < top_frame(old(self)@).code_obj.code.len(),
            top_frame(old(self)@).code_obj.code[top_frame(old(self)@).instruction as int]
                == InstrV::LoadFunc(h),
        ensures
            step_rel(old(self)@, final(self)@, r),
            final(self).db == old(self).db,
            final(self).data_stack_cap == old(self).data_stack_cap,
            final(self).call_stack_cap == old(self).call_stack_cap,
    {
        let ghost v0 = self@;
        let ghost f0 = top_frame(v0);
        let mut frame = self.call_stack.pop().unwrap();
        proof {
            assert(frame@ == f0);
        }
        let clen = frame.code_obj.code.len();
        if frame.stack.len() >= self.data_stack_cap {
            self.call_stack.push(frame);
            proof {
                assert(self@.frames =~= v0.frames);
                assert(self@.dbg =~= v0.dbg);
                assert(self@ == v0);
            }
            return Err(VmError::OperandStackOverflow);
        }
        frame.stack.push(Value::Hash(h));
        frame.instruction = frame.instruction + 1;
        self.call_stack.push(frame);
        proof {
            let w = match step_model(v0) {
                StepResV::Cont(w) => w,
                _ => v0,
            };
            assert(step_model(v0) is Cont);
            assert(frame@.stack =~= f0.stack.push(ValV::Hash(h)));
            assert(frame@.locals =~= f0.locals);
            assert(frame@ == top_frame(w));
            assert(self@.frames =~= w.frames);
            assert(self@.dbg =~= w.dbg);
            assert(self@ == w);
        }
        Ok(StepOutcome::Continue)
    }
}

impl StackFrame {
    /// The number of literals in this frame's pool.
    fn litpool_len(&self) -> (n: usize)
        ensures
            n == self@.code_obj.litpool.len(),
    {
        self.code_obj.litpool.len()
    }
}

} // verus!

verus! {

impl Vm {
    /// Executes `LoadDyn`: resolves the name through the store and pushes
    /// the bound hash.
    #[verifier::rlimit(100)]
    fn step_load_dyn(&mut self, name: &String) -> (r: Result<StepOutcome, VmError>)
        requires
            old(self).inv(),
            old(self)@.frames.len() > 0,
            top_frame(old(self)@).instruction < top_frame(old(self)@).code_obj.code.len(),
            top_frame(old(self)@).code_obj.code[top_frame(old(self)@).instruction as int]
                == InstrV::LoadDyn(name@),
        ensures
            step_rel(old(self)@, final(self)@, r),
            final(self).db == old(self).db,
            final(self).data_stack_cap == old(self).data_stack_cap,
            final(self).call_stack_cap == old(self).call_stack_cap,
    {
        let ghost v0 = self@;
        let ghost f0 = top_frame(v0);
        let h = match self.db.get_code_object_by_name(name.as_str()) {
            Err(_) => {
                return Err(VmError::UnknownName);
            },
            Ok((h, _)) => h,
        };
        proof {
            assert(crate::store::has_name(v0.store, name@)) by {
                let i = choose|i: int|
                    0 <= i < v0.store.names.len() && #[trigger] v0.store.names[i] == (name@, h);
                assert(v0.store.names[i].0 == name@);
            }
            assert(h == name_hash(v0.store, name@)) by {
                let i = choose|i: int|
                    0 <= i < v0.store.names.len() && #[trigger] v0.store.names[i] == (name@, h);
                let j = choose|j: int|
                    0 <= j < v0.store.names.len() && (#[trigger] v0.store.names[j]).0 == name@;
                if i != j {
                    assert(v0.store.names[i].0 != v0.store.names[j].0);
                }
            }
        }
        let mut frame = self.call_stack.pop().unwrap();
        proof {
            assert(frame@ == f0);
        }
        let clen = frame.code_obj.code.len();
        if frame.stack.len() >= self.data_stack_cap {
            self.call_stack.push(frame);
            proof {
                assert(self@.frames =~= v0.frames);
                assert(self@.dbg =~= v0.dbg);
                assert(self@ == v0);
            }
            return Err(VmError::OperandStackOverflow);
        }
        frame.stack.push(Value::Hash(h));
        frame.instruction = frame.instruction + 1;
        self.call_stack.push(frame);
        proof {
            let w = match step_model(v0) {
                StepResV::Cont(w) => w,
                _ => v0,
            };
            assert(step_model(v0) is Cont);
            assert(frame@.stack =~= f0.stack.push(ValV::Hash(name_hash(v0.store, name@))));
            assert(frame@.locals =~= f0.locals);
            assert(frame@ == top_frame(w));
            assert(self@.frames =~= w.frames);
            assert(self@.dbg =~= w.dbg);
            assert(self@ == w);
        }
        Ok(StepOutcome::Continue)
    }

    /// Executes an unconditional `Jump`.
    fn step_jump(&mut self, l: usize) -> (r: Result<StepOutcome, VmError>)
        requires
            old(self)@.frames.len() > 0,
            top_frame(old(self)@).instruction < top_frame(old(self)@).code_obj.code.len(),
            top_frame(old(self)@).code_obj.code[top_frame(old(self)@).instruction as int]
                == InstrV::Jump(l),
        ensures
            step_rel(old(self)@, final(self)@, r),
            final(self).db == old(self).db,
            final(self).data_stack_cap == old(self).data_stack_cap,
            final(self).call_stack_cap == old(self).call_stack_cap,
    {
        let ghost v0 = self@;
        let ghost f0 = top_frame(v0);
        let mut frame = self.call_stack.pop().unwrap();
        proof {
            assert(frame@ == f0);
        }
        if l >= frame.code_obj.labels.len() {
            self.call_stack.push(frame);
            proof {
                assert(self@.frames =~= v0.frames);
                assert(self@.dbg =~= v0.dbg);
                assert(self@ == v0);
            }
            return Err(VmError::LabelIndexOutOfBounds);
        }
        frame.instruction = frame.code_obj.labels[l];
        self.call_stack.push(frame);
        proof {
            let w = match step_model(v0) {
                StepResV::Cont(w) => w,
                _ => v0,
            };
            assert(step_model(v0) is Cont);
            assert(frame@.stack =~= f0.stack);
            assert(frame@.locals =~= f0.locals);
            assert(frame@ == top_frame(w));
            assert(self@.frames =~= w.frames);
            assert(self@.dbg =~= w.dbg);
            assert(self@ == w);
        }
        Ok(StepOutcome::Continue)
    }

    /// Executes `JumpT` or `JumpF`: pops one value and branches when it
    /// is the boolean `want`.
    #[verifier::rlimit(100)]
    fn step_jump_bool(&mut self, l: usize, want: bool) -> (r: Result<StepOutcome, VmError>)
        requires
            old(self)@.frames.len() > 0,
            top_frame(old(self)@).instruction < top_frame(old(self)@).code_obj.code.len(),
            (want && top_frame(old(self)@).code_obj.code[top_frame(old(self)@).instruction as int]
                == InstrV::JumpT(l)) || (!want && top_frame(old(self)@).code_obj.code[top_frame(
                old(self)@,
            ).instruction as int] == InstrV::JumpF(l)),
        ensures
            step_rel(old(self)@, final(self)@, r),
            final(self).db == old(self).db,
            final(self).data_stack_cap == old(self).data_stack_cap,
            final(self).call_stack_cap == old(self).call_stack_cap,
    {
        let ghost v0 = self@;
        let ghost f0 = top_frame(v0);
        let mut frame = self.call_stack.pop().unwrap();
        proof {
            assert(frame@ == f0);
        }
        let clen = frame.code_obj.code.len();
        if frame.stack.len() == 0 {
            self.call_stack.push(frame);
            proof {
                assert(self@.frames =~= v0.frames);
                assert(self@.dbg =~= v0.dbg);
                assert(self@ == v0);
            }
            return Err(VmError::StackUnderflow);
        }
        let taken = match &frame.stack[frame.stack.len() - 1] {
            Value::Bool(b) => *b == want,
            _ => false,
        };
        proof {
            assert(taken == (f0.stack.last() == ValV::Bool(want)));
        }
        if taken && l >= frame.code_obj.labels.len() {
            self.call_stack.push(frame);
            proof {
                assert(self@.frames =~= v0.frames);
                assert(self@.dbg =~= v0.dbg);
                assert(self@ == v0);
            }
            return Err(VmError::LabelIndexOutOfBounds);
        }
        frame.stack.pop();
        if taken {
            frame.instruction = frame.code_obj.labels[l];
        } else {
            frame.instruction = frame.instruction + 1;
        }
        self.call_stack.push(frame);
        proof {
            let w = match step_model(v0) {
                StepResV::Cont(w) => w,
                _ => v0,
            };
            assert(step_model(v0) is Cont);
            assert(frame@.stack =~= f0.stack.drop_last());
            assert(frame@.locals =~= f0.locals);
            assert(frame@ == top_frame(w));
            assert(self@.frames =~= w.frames);
            assert(self@.dbg =~= w.dbg);
            assert(self@ == w);
        }
        Ok(StepOutcome::Continue)
    }

    /// Executes `JumpEq` or `JumpNe`: pops right then left and branches
    /// on structural equality against `want_eq`.
    #[verifier::rlimit(100)]
    fn step_jump_eq(&mut self, l: usize, want_eq: bool) -> (r: Result<StepOutcome, VmError>)
        requires
            old(self)@.frames.len() > 0,
            top_frame(old(self)@).instruction < top_frame(old(self)@).code_obj.code.len(),
            (want_eq && top_frame(old(self)@).code_obj.code[top_frame(
                old(self)@,
            ).instruction as int] == InstrV::JumpEq(l)) || (!want_eq && top_frame(
                old(self)@,
            ).code_obj.code[top_frame(old(self)@).instruction as int] == InstrV::JumpNe(l)),
        ensures
            step_rel(old(self)@, final(self)@, r),
            final(self).db == old(self).db,
            final(self).data_stack_cap == old(self).data_stack_cap,
            final(self).call_stack_cap == old(self).call_stack_cap,
    {
        let ghost v0 = self@;
        let ghost f0 = top_frame(v0);
        let mut frame = self.call_stack.pop().unwrap();
        proof {
            assert(frame@ == f0);
        }
        let clen = frame.code_obj.code.len();
        if frame.stack.len() < 2 {
            self.call_stack.push(frame);
            proof {
                assert(self@.frames =~= v0.frames);
                assert(self@.dbg =~= v0.dbg);
                assert(self@ == v0);
            }
            return Err(VmError::StackUnderflow);
        }
        let eq = crate::value::eq_value(
            &frame.stack[frame.stack.len() - 2],
            &frame.stack[frame.stack.len() - 1],
        );
        let taken = eq == want_eq;
        proof {
            assert(eq == (f0.stack[f0.stack.len() - 2] == f0.stack.last()));
        }
        if taken && l >= frame.code_obj.labels.len() {
            self.call_stack.push(frame);
            proof {
                assert(self@.frames =~= v0.frames);
                assert(self@.dbg =~= v0.dbg);
                assert(self@ == v0);
            }
            return Err(VmError::LabelIndexOutOfBounds);
        }
        frame.stack.pop();
        frame.stack.pop();
        if taken {
            frame.instruction = frame.code_obj.labels[l];
        } else {
            frame.instruction = frame.instruction + 1;
        }
        self.call_stack.push(frame);
        proof {
            let w = match step_model(v0) {
                StepResV::Cont(w) => w,
                _ => v0,
            };
            assert(step_model(v0) is Cont);
            assert(frame@.stack =~= f0.stack.take(f0.stack.len() - 2));
            assert(frame@.locals =~= f0.locals);
            assert(frame@ == top_frame(w));
            assert(self@.frames =~= w.frames);
            assert(self@.dbg =~= w.dbg);
            assert(self@ == w);
        }
        Ok(StepOutcome::Continue)
    }

    /// Executes an order-comparison jump: pops right then left, compares,
    /// and branches on the outcomes selected by `lt`, `eq`, `gt`.
    #[verifier::rlimit(100)]
    fn step_jump_cmp(&mut self, l: usize, lt: bool, eq: bool, gt: bool) -> (r: Result<
        StepOutcome,
        VmError,
    >)
        requires
            old(self)@.frames.len() > 0,
            top_frame(old(self)@).instruction < top_frame(old(self)@).code_obj.code.len(),
            ({
                let instr = top_frame(old(self)@).code_obj.code[top_frame(
                    old(self)@,
                ).instruction as int];
                ||| (instr == InstrV::JumpGt(l) && !lt && !eq && gt)
                ||| (instr == InstrV::JumpGe(l) && !lt && eq && gt)
                ||| (instr == InstrV::JumpLt(l) && lt && !eq && !gt)
                ||| (instr == InstrV::JumpLe(l) && lt && eq && !gt)
            }),
        ensures
            step_rel(old(self)@, final(self)@, r),
            final(self).db == old(self).db,
            final(self).data_stack_cap == old(self).data_stack_cap,
            final(self).call_stack_cap == old(self).call_stack_cap,
    {
        let ghost v0 = self@;
        let ghost f0 = top_frame(v0);
        let mut frame = self.call_stack.pop().unwrap();
        proof {
            assert(frame@ == f0);
        }
        let clen = frame.code_obj.code.len();
        if frame.stack.len() < 2 {
            self.call_stack.push(frame);
            proof {
                assert(self@.frames =~= v0.frames);
                assert(self@.dbg =~= v0.dbg);
                assert(self@ == v0);
            }
            return Err(VmError::StackUnderflow);
        }
        let cmp = value_compare(
            &frame.stack[frame.stack.len() - 2],
            &frame.stack[frame.stack.len() - 1],
        );
        let taken = match cmp {
            Err(e) => {
                self.call_stack.push(frame);
                proof {
                    assert(self@.frames =~= v0.frames);
                    assert(self@.dbg =~= v0.dbg);
                    assert(self@ == v0);
                }
                return Err(e);
            },
            Ok(CmpRes::Lt) => lt,
            Ok(CmpRes::Eq) => eq,
            Ok(CmpRes::Gt) => gt,
        };
        if taken && l >= frame.code_obj.labels.len() {
            self.call_stack.push(frame);
            proof {
                assert(self@.frames =~= v0.frames);
                assert(self@.dbg =~= v0.dbg);
                assert(self@ == v0);
            }
            return Err(VmError::LabelIndexOutOfBounds);
        }
        frame.stack.pop();
        frame.stack.pop();
        if taken {
            frame.instruction = frame.code_obj.labels[l];
        } else {
            frame.instruction = frame.instruction + 1;
        }
        self.call_stack.push(frame);
        proof {
            let w = match step_model(v0) {
                StepResV::Cont(w) => w,
                _ => v0,
            };
            assert(step_model(v0) is Cont);
            assert(frame@.stack =~= f0.stack.take(f0.stack.len() - 2));
            assert(frame@.locals =~= f0.locals);
            assert(frame@ == top_frame(w));
            assert(self@.frames =~= w.frames);
            assert(self@.dbg =~= w.dbg);
            assert(self@ == w);
        }
        Ok(StepOutcome::Continue)
    }
}

} // verus!

verus! {

impl Vm {
    /// Pops `argc` operands off `frame`'s stack into fresh callee locals,
    /// then pads the locals with unset slots up to `lnames`.
    #[verifier::rlimit(100)]
    fn collect_args(frame: &mut StackFrame, argc: usize, lnames: usize) -> (locals: Vec<
        Option<Value>,
    >)
        requires
            old(frame)@.stack.len() >= argc,
        ensures
            final(frame)@ == (FrameV {
                stack: old(frame)@.stack.take(old(frame)@.stack.len() - argc),
                ..old(frame)@
            }),
            locals@.len() == if argc >= lnames {
                argc as int
            } else {
                lnames as int
            },
            forall|j: int|
                0 <= j < locals@.len() ==> opt_val_view(#[trigger] locals@[j]) == (if j < argc {
                    Some(old(frame)@.stack[old(frame)@.stack.len() - 1 - j])
                } else {
                    None
                }),
    {
        let ghost rest = old(frame)@.stack;
        let mut locals: Vec<Option<Value>> = Vec::new();
        let mut j: usize = 0;
        while j < argc
            invariant
                j <= argc,
                argc <= rest.len(),
                frame@.stack == rest.take(rest.len() - j),
                frame@.locals == old(frame)@.locals,
                frame@.code_obj == old(frame)@.code_obj,
                frame@.instruction == old(frame)@.instruction,
                locals@.len() == j,
                forall|jj: int|
                    0 <= jj < j ==> opt_val_view(#[trigger] locals@[jj]) == Some(
                        rest[rest.len() - 1 - jj],
                    ),
            decreases argc - j,
        {
            proof {
                assert(frame@.stack.len() == frame.stack@.len());
                assert(frame.stack@.len() > 0);
            }
            let val = frame.stack.pop().unwrap();
            proof {
                assert(rest.take(rest.len() - j).last() == rest[rest.len() - 1 - j]);
                assert(val@ == rest[rest.len() - 1 - j]);
                assert(rest.take(rest.len() - j).drop_last() =~= rest.take(rest.len() - (j + 1)));
                assert(frame@.stack =~= rest.take(rest.len() - j).drop_last());
            }
            locals.push(Some(val));
            j = j + 1;
        }
        while locals.len() < lnames
            invariant
                argc <= locals@.len(),
                locals@.len() <= argc || locals@.len() <= lnames,
                forall|jj: int|
                    0 <= jj < argc ==> opt_val_view(#[trigger] locals@[jj]) == Some(
                        rest[rest.len() - 1 - jj],
                    ),
                forall|jj: int|
                    argc <= jj < locals@.len() ==> opt_val_view(#[trigger] locals@[jj]) is None,
            decreases lnames - locals@.len(),
        {
            locals.push(None);
        }
        proof {
            assert(frame@ =~= (FrameV {
                stack: rest.take(rest.len() - argc),
                ..old(frame)@
            })) by {
                assert(frame@.stack == rest.take(rest.len() - argc));
            }
        }
        locals
    }

    /// Executes `Call`: pops a hash, fetches the callee, moves the
    /// arguments, and pushes a fresh frame.
    #[verifier::rlimit(100)]
    fn step_call(&mut self) -> (r: Result<StepOutcome, VmError>)
        requires
            old(self).inv(),
            old(self)@.frames.len() > 0,
            top_frame(old(self)@).instruction < top_frame(old(self)@).code_obj.code.len(),
            top_frame(old(self)@).code_obj.code[top_frame(old(self)@).instruction as int]
                == InstrV::Call,
        ensures
            step_rel(old(self)@, final(self)@, r),
            final(self).db == old(self).db,
            final(self).data_stack_cap == old(self).data_stack_cap,
            final(self).call_stack_cap == old(self).call_stack_cap,
    {
        let ghost v0 = self@;
        let ghost f0 = top_frame(v0);
        let depth = self.call_stack.len();
        if self.call_stack[depth - 1].stack.len() == 0 {
            return Err(VmError::StackUnderflow);
        }
        let h: CodeHash = {
            let fref = &self.call_stack[depth - 1];
            match &fref.stack[fref.stack.len() - 1] {
                Value::Hash(h) => *h,
                _ => {
                    proof {
                        assert(!(f0.stack.last() is Hash));
                    }
                    return Err(VmError::TypeMismatch);
                },
            }
        };
        proof {
            assert(f0.stack.last() == ValV::Hash(h));
        }
        let callee_obj = match self.db.get_code_object(&h) {
            Err(_) => {
                return Err(VmError::UnknownHash);
            },
            Ok(o) => o,
        };
        proof {
            assert(store_has_hash(v0.store, h)) by {
                let i = choose|i: int|
                    0 <= i < v0.store.objects.len() && #[trigger] v0.store.objects[i] == (
                    h,
                    callee_obj@,
                );
                assert(v0.store.objects[i].0 == h);
            }
            assert(callee_obj@ == store_obj(v0.store, h)) by {
                let i = choose|i: int|
                    0 <= i < v0.store.objects.len() && #[trigger] v0.store.objects[i] == (
                    h,
                    callee_obj@,
                );
                let j = choose|j: int|
                    0 <= j < v0.store.objects.len() && (#[trigger] v0.store.objects[j]).0 == h;
                if i != j {
                    assert(v0.store.objects[i].0 != v0.store.objects[j].0);
                }
            }
        }
        let argc = callee_obj.argcount;
        if self.call_stack[depth - 1].stack.len() - 1 < argc {
            proof {
                assert(f0.stack.drop_last().len() < argc);
            }
            return Err(VmError::InsufficientArguments);
        }
        if depth >= self.call_stack_cap {
            return Err(VmError::CallStackOverflow);
        }
        let lnames = callee_obj.localnames.len();
        let mut frame = self.call_stack.pop().unwrap();
        proof {
            assert(frame@ == f0);
        }
        let clen = frame.code_obj.code.len();
        frame.stack.pop();
        proof {
            assert(frame@.stack =~= f0.stack.drop_last());
            assert(frame@ == (FrameV { stack: f0.stack.drop_last(), ..f0 }));
        }
        let ghost rest = f0.stack.drop_last();
        let locals = Self::collect_args(&mut frame, argc, lnames);
        frame.instruction = frame.instruction + 1;
        self.call_stack.push(frame);
        let callee = StackFrame { code_obj: callee_obj, stack: Vec::new(), locals, instruction: 0 };
        self.call_stack.push(callee);
        proof {
            let w = match step_model(v0) {
                StepResV::Cont(w) => w,
                _ => v0,
            };
            assert(step_model(v0) is Cont);
            let calleev = callee_frame(store_obj(v0.store, h), rest);
            assert(callee@.locals =~= calleev.locals);
            assert(callee@.stack =~= calleev.stack);
            assert(callee@ == calleev);
            assert(frame@.stack =~= rest.take(rest.len() - argc));
            assert(frame@ == (FrameV {
                stack: rest.take(rest.len() - argc),
                instruction: (f0.instruction + 1) as usize,
                ..f0
            }));
            assert(self@.frames =~= w.frames);
            assert(self@.dbg =~= w.dbg);
            assert(self@ == w);
        }
        Ok(StepOutcome::Continue)
    }

    /// Executes `CallSelf`: calls the current code object again.
    #[verifier::rlimit(100)]
    fn step_call_self(&mut self) -> (r: Result<StepOutcome, VmError>)
        requires
            old(self)@.frames.len() > 0,
            top_frame(old(self)@).instruction < top_frame(old(self)@).code_obj.code.len(),
            top_frame(old(self)@).code_obj.code[top_frame(old(self)@).instruction as int]
                == InstrV::CallSelf,
        ensures
            step_rel(old(self)@, final(self)@, r),
            final(self).db == old(self).db,
            final(self).data_stack_cap == old(self).data_stack_cap,
            final(self).call_stack_cap == old(self).call_stack_cap,
    {
        let ghost v0 = self@;
        let ghost f0 = top_frame(v0);
        let depth = self.call_stack.len();
        let argc = self.call_stack[depth - 1].code_obj.argcount;
        if self.call_stack[depth - 1].stack.len() < argc {
            return Err(VmError::InsufficientArguments);
        }
        if depth >= self.call_stack_cap {
            return Err(VmError::CallStackOverflow);
        }
        let mut frame = self.call_stack.pop().unwrap();
        proof {
            assert(frame@ == f0);
        }
        let clen = frame.code_obj.code.len();
        let callee_obj = frame.code_obj.clone();
        let lnames = callee_obj.localnames.len();
        let ghost rest = f0.stack;
        let locals = Self::collect_args(&mut frame, argc, lnames);
        frame.instruction = frame.instruction + 1;
        self.call_stack.push(frame);
        let callee = StackFrame { code_obj: callee_obj, stack: Vec::new(), locals, instruction: 0 };
        self.call_stack.push(callee);
        proof {
            let w = match step_model(v0) {
                StepResV::Cont(w) => w,
                _ => v0,
            };
            assert(step_model(v0) is Cont);
            let calleev = callee_frame(f0.code_obj, rest);
            assert(callee@.locals =~= calleev.locals);
            assert(callee@.stack =~= calleev.stack);
            assert(callee@ == calleev);
            assert(frame@.stack =~= rest.take(rest.len() - argc));
            assert(frame@ == (FrameV {
                stack: rest.take(rest.len() - argc),
                instruction: (f0.instruction + 1) as usize,
                ..f0
            }));
            assert(self@.frames =~= w.frames);
            assert(self@.dbg =~= w.dbg);
            assert(self@ == w);
        }
        Ok(StepOutcome::Continue)
    }

    /// Executes `Return`: discards the frame; anything on its operand
    /// stack is lost.
    fn step_return(&mut self) -> (r: Result<StepOutcome, VmError>)
        requires
            old(self)@.frames.len() > 0,
            top_frame(old(self)@).instruction < top_frame(old(self)@).code_obj.code.len(),
            top_frame(old(self)@).code_obj.code[top_frame(old(self)@).instruction as int]
                == InstrV::Return,
        ensures
            step_rel(old(self)@, final(self)@, r),
            final(self).db == old(self).db,
            final(self).data_stack_cap == old(self).data_stack_cap,
            final(self).call_stack_cap == old(self).call_stack_cap,
    {
        let ghost v0 = self@;
        self.call_stack.pop();
        proof {
            let w = match step_model(v0) {
                StepResV::Cont(w) => w,
                _ => v0,
            };
            assert(step_model(v0) is Cont);
            assert(self@.frames =~= v0.frames.drop_last());
            assert(self@.dbg =~= w.dbg);
            assert(self@ == w);
        }
        Ok(StepOutcome::Continue)
    }

    /// Executes `ReturnVal`: pops the return value; at the bottom of the
    /// call stack a 32-bit signed integer becomes the exit status,
    /// otherwise the value moves to the caller's stack.
    #[verifier::rlimit(100)]
    fn step_return_val(&mut self) -> (r: Result<StepOutcome, VmError>)
        requires
            old(self)@.frames.len() > 0,
            top_frame(old(self)@).instruction < top_frame(old(self)@).code_obj.code.len(),
            top_frame(old(self)@).code_obj.code[top_frame(old(self)@).instruction as int]
                == InstrV::ReturnVal,
        ensures
            step_rel(old(self)@, final(self)@, r),
            final(self).db == old(self).db,
            final(self).data_stack_cap == old(self).data_stack_cap,
            final(self).call_stack_cap == old(self).call_stack_cap,
    {
        let ghost v0 = self@;
        let ghost f0 = top_frame(v0);
        let depth = self.call_stack.len();
        if self.call_stack[depth - 1].stack.len() == 0 {
            return Err(VmError::StackUnderflow);
        }
        if depth == 1 {
            let is_i32 = match &self.call_stack[0].stack[self.call_stack[0].stack.len() - 1] {
                Value::I32(_) => true,
                _ => false,
            };
            if !is_i32 {
                proof {
                    assert(!(f0.stack.last() is I32));
                }
                return Err(VmError::NonIntegerMainReturn);
            }
            let mut frame = self.call_stack.pop().unwrap();
            proof {
                assert(frame@ == f0);
            }
            let clen = frame.code_obj.code.len();
            let val = frame.stack.pop().unwrap();
            let code: i32 = match val {
                Value::I32(c) => c,
                _ => 0,
            };
            proof {
                assert(f0.stack.last() == ValV::I32(code));
            }
            frame.instruction = frame.instruction + 1;
            self.call_stack.push(frame);
            proof {
                let w = match step_model(v0) {
                    StepResV::Halt(c, w) => w,
                    _ => v0,
                };
                assert(step_model(v0) is Halt);
                assert(frame@.stack =~= f0.stack.drop_last());
                assert(frame@.locals =~= f0.locals);
                assert(frame@ == top_frame(w));
                assert(self@.frames =~= w.frames);
                assert(self@.dbg =~= w.dbg);
                assert(self@ == w);
            }
            return Ok(StepOutcome::Halt(code));
        }
        let caller_len = self.call_stack[depth - 2].stack.len();
        if caller_len >= self.data_stack_cap {
            return Err(VmError::OperandStackOverflow);
        }
        let mut frame = self.call_stack.pop().unwrap();
        proof {
            assert(frame@ == f0);
            assert(f0.stack.len() > 0);
            assert(frame.stack@.len() == f0.stack.len());
        }
        let val = frame.stack.pop().unwrap();
        proof {
            assert(val@ == f0.stack.last());
        }
        let mut caller = self.call_stack.pop().unwrap();
        proof {
            assert(caller@ == v0.frames[v0.frames.len() - 2]);
        }
        caller.stack.push(val);
        self.call_stack.push(caller);
        proof {
            let w = match step_model(v0) {
                StepResV::Cont(w) => w,
                _ => v0,
            };
            assert(step_model(v0) is Cont);
            let callerv = v0.frames[v0.frames.len() - 2];
            assert(caller@.stack =~= callerv.stack.push(f0.stack.last()));
            assert(caller@.locals =~= callerv.locals);
            assert(caller@ == (FrameV { stack: callerv.stack.push(f0.stack.last()), ..callerv }));
            assert(self@.frames =~= w.frames);
            assert(self@.dbg =~= w.dbg);
            assert(self@ == w);
        }
        Ok(StepOutcome::Continue)
    }
}

} // verus!

verus! {

/// Copies a vector of optional values, preserving views.
fn clone_opt_values(v: &Vec<Option<Value>>) -> (r: Vec<Option<Value>>)
    ensures
        r@.len() == v@.len(),
        forall|i: int|
            0 <= i < v@.len() ==> opt_val_view(#[trigger] r@[i]) == opt_val_view(v@[i]),
{
    let mut out: Vec<Option<Value>> = Vec::new();
    let mut k: usize = 0;
    while k < v.len()
        invariant
            k <= v@.len(),
            out@.len() == k,
            forall|i: int|
                0 <= i < k ==> opt_val_view(#[trigger] out@[i]) == opt_val_view(v@[i]),
        decreases v@.len() - k,
    {
        match &v[k] {
            None => out.push(None),
            Some(x) => out.push(Some(x.clone())),
        }
        k = k + 1;
    }
    out
}

impl Clone for StackFrame {
    /// A copy with the same view.
    fn clone(&self) -> (r: StackFrame)
        ensures
            r@ == self@,
    {
        let r = StackFrame {
            code_obj: self.code_obj.clone(),
            stack: crate::object::clone_values(&self.stack),
            locals: clone_opt_values(&self.locals),
            instruction: self.instruction,
        };
        proof {
            assert(r@.stack =~= self@.stack);
            assert(r@.locals =~= self@.locals);
        }
        r
    }
}

impl Vm {
    /// Executes the current instruction of the innermost frame.
    pub fn step(&mut self) -> (r: Result<StepOutcome, VmError>)
        requires
            old(self).inv(),
            old(self)@.frames.len() > 0,
        ensures
            final(self).inv(),
            final(self).db == old(self).db,
            final(self).data_stack_cap == old(self).data_stack_cap,
            final(self).call_stack_cap == old(self).call_stack_cap,
            step_rel(old(self)@, final(self)@, r),
    {
        let ghost v0 = self@;
        let depth = self.call_stack.len();
        let instr = {
            let fref = &self.call_stack[depth - 1];
            let ip = fref.instruction;
            if ip >= fref.code_obj.code.len() {
                proof {
                    assert(step_model(v0) == StepResV::Halt(0, v0));
                }
                return Ok(StepOutcome::Halt(0));
            }
            fref.code_obj.code.index(ip).clone()
        };
        proof {
            assert(instr@ == top_frame(v0).code_obj.code[top_frame(v0).instruction as int]);
        }
        match instr {
            crate::bytecode::Instr::LoadArg(i) => self.step_load_arg(i),
            crate::bytecode::Instr::LoadLocal(i) => self.step_load_local(i),
            crate::bytecode::Instr::LoadLit(i) => self.step_load_lit(i),
            crate::bytecode::Instr::StoreLocal(i) => self.step_store_local(i),
            crate::bytecode::Instr::Pop => self.step_pop(),
            crate::bytecode::Instr::Dup => self.step_dup(),
            crate::bytecode::Instr::LoadFunc(h) => self.step_load_func(h),
            crate::bytecode::Instr::LoadDyn(name) => self.step_load_dyn(&name),
            crate::bytecode::Instr::Call => self.step_call(),
            crate::bytecode::Instr::CallSelf => self.step_call_self(),
            crate::bytecode::Instr::Return => self.step_return(),
            crate::bytecode::Instr::ReturnVal => self.step_return_val(),
            crate::bytecode::Instr::Jump(l) => self.step_jump(l),
            crate::bytecode::Instr::JumpT(l) => self.step_jump_bool(l, true),
            crate::bytecode::Instr::JumpF(l) => self.step_jump_bool(l, false),
            crate::bytecode::Instr::JumpEq(l) => self.step_jump_eq(l, true),
            crate::bytecode::Instr::JumpNe(l) => self.step_jump_eq(l, false),
            crate::bytecode::Instr::JumpGt(l) => self.step_jump_cmp(l, false, false, true),
            crate::bytecode::Instr::JumpGe(l) => self.step_jump_cmp(l, false, true, true),
            crate::bytecode::Instr::JumpLt(l) => self.step_jump_cmp(l, true, false, false),
            crate::bytecode::Instr::JumpLe(l) => self.step_jump_cmp(l, true, true, false),
            crate::bytecode::Instr::BinOp(op) => self.step_binop(op),
            crate::bytecode::Instr::UnaryOp(op) => self.step_unaryop(op),
            crate::bytecode::Instr::Dbg => self.step_dbg(),
            crate::bytecode::Instr::Nop => self.step_nop(),
        }
    }

    /// Runs the machine until the call stack empties, a step halts or
    /// fails, or `fuel` steps have been taken.
    pub fn run(&mut self, fuel: u64) -> (r: Result<i32, VmError>)
        requires
            old(self).inv(),
        ensures
            final(self).inv(),
            final(self).db == old(self).db,
            final(self).data_stack_cap == old(self).data_stack_cap,
            final(self).call_stack_cap == old(self).call_stack_cap,
            match run_model(old(self)@, fuel as nat) {
                RunResV::Halted(c, w) => r == Ok::<i32, VmError>(c) && final(self)@ == w,
                RunResV::Aborted(e, w) => r == Err::<i32, VmError>(e) && final(self)@ == w,
                RunResV::Spin(w) => r == Err::<i32, VmError>(VmError::OutOfFuel) && final(self)@
                    == w,
            },
    {
        let ghost vstart = self@;
        let ghost fuel0 = fuel as nat;
        let mut remaining: u64 = fuel;
        loop
            invariant
                self.inv(),
                self.db == old(self).db,
                self.data_stack_cap == old(self).data_stack_cap,
                self.call_stack_cap == old(self).call_stack_cap,
                remaining <= fuel,
                run_model(vstart, fuel0) == run_model(self@, remaining as nat),
                vstart == old(self)@,
                fuel0 == fuel as nat,
            decreases remaining,
        {
            if self.call_stack.len() == 0 {
                proof {
                    assert(run_model(self@, remaining as nat) == RunResV::Halted(0, self@));
                }
                return Ok(0);
            }
            if remaining == 0 {
                proof {
                    assert(run_model(self@, 0nat) == RunResV::Spin(self@));
                }
                return Err(VmError::OutOfFuel);
            }
            let ghost before = self@;
            let res = self.step();
            match res {
                Ok(StepOutcome::Continue) => {
                    proof {
                        assert(step_model(before) == StepResV::Cont(self@));
                        assert(run_model(before, remaining as nat) == run_model(
                            self@,
                            (remaining - 1) as nat,
                        ));
                    }
                    remaining = remaining - 1;
                },
                Ok(StepOutcome::Halt(c)) => {
                    proof {
                        assert(step_model(before) == StepResV::Halt(c, self@));
                        assert(run_model(before, remaining as nat) == RunResV::Halted(c, self@));
                    }
                    return Ok(c);
                },
                Err(e) => {
                    proof {
                        assert(step_model(before) == StepResV::Abort(e));
                        assert(self@ == before);
                        assert(run_model(before, remaining as nat) == RunResV::Aborted(e, self@));
                    }
                    return Err(e);
                },
            }
        }
    }
}

} // verus!

verus! {

/// A run entry point's failure: either the store had no such function,
/// or execution aborted.
#[derive(Debug, Clone, Copy, PartialEq, Eq, Structural)]
pub enum RunError {
    /// The store lookup failed.
    Store(StoreError),
    /// A step of execution failed.
    Exec(VmError),
}

/// The frame an entry point starts in: empty stack, every local unset.
pub open spec fn entry_frame(obj: CodeObjV) -> FrameV {
    FrameV {
        code_obj: obj,
        stack: Seq::empty(),
        locals: Seq::new(obj.localnames.len(), |j: int| None),
        instruction: 0,
    }
}

/// `v` with the innermost frame discarded (unchanged when none is left).
pub open spec fn drop_top(v: VmV) -> VmV {
    if v.frames.len() > 0 {
        VmV { frames: v.frames.drop_last(), ..v }
    } else {
        v
    }
}

/// The state a run entry point starts from: the entry object's frame
/// pushed onto the current call stack.
pub open spec fn entry_state(v: VmV, obj: CodeObjV) -> VmV {
    VmV { frames: v.frames.push(entry_frame(obj)), ..v }
}

/// Builds the frame an entry point starts in.
fn make_entry_frame(obj: CodeObject) -> (f: StackFrame)
    ensures
        f@ == entry_frame(obj@),
{
    let n = obj.localnames.len();
    let mut locals: Vec<Option<Value>> = Vec::new();
    let mut k: usize = 0;
    while k < n
        invariant
            k <= n,
            locals@.len() == k,
            forall|i: int| 0 <= i < k ==> (#[trigger] locals@[i]) is None,
        decreases n - k,
    {
        locals.push(None);
        k = k + 1;
    }
    let f = StackFrame { code_obj: obj, stack: Vec::new(), locals, instruction: 0 };
    proof {
        assert(f@.stack =~= Seq::<ValV>::empty());
        assert(f@.locals =~= Seq::new(f@.code_obj.localnames.len(), |j: int| None));
    }
    f
}

impl Vm {
    /// A machine over an empty in-memory store, with the default caps.
    pub fn new() -> (r: Vm)
        ensures
            r.inv(),
            r@.frames == Seq::<FrameV>::empty(),
            r@.data_cap == STACK_CAP,
            r@.call_cap == STACK_CAP,
            r@.store.objects == Seq::<(u128, CodeObjV)>::empty(),
            r@.store.names == Seq::<(Seq<char>, u128)>::empty(),
            r@.store.main is None,
            r@.dbg == Seq::<ValV>::empty(),
    {
        let r = Vm {
            call_stack: Vec::new(),
            data_stack_cap: STACK_CAP,
            call_stack_cap: STACK_CAP,
            db: Store::new(),
            dbg_log: Vec::new(),
        };
        proof {
            assert(r@.frames =~= Seq::<FrameV>::empty());
            assert(r@.dbg =~= Seq::<ValV>::empty());
        }
        r
    }

    /// Looks up `main` in the store, runs it, and returns its exit code:
    /// 0 on a plain return or when the code runs out, the returned 32-bit
    /// integer on `ReturnVal`.
    pub fn run_main_function(&mut self) -> (r: Result<i32, RunError>)
        requires
            old(self).inv(),
        ensures
            final(self).inv(),
            final(self).db == old(self).db,
            match r {
                Err(RunError::Store(e)) => e == StoreError::MissingMain && old(self)@.store.main
                    is None && final(self)@ == old(self)@,
                _ => {
                    &&& old(self)@.store.main is Some
                    &&& {
                        let init = entry_state(
                            old(self)@,
                            store_obj(old(self)@.store, old(self)@.store.main->Some_0),
                        );
                        match run_model(init, u64::MAX as nat) {
                            RunResV::Halted(c, w) => r == Ok::<i32, RunError>(c) && final(self)@
                                == drop_top(w),
                            RunResV::Aborted(e, w) => r == Err::<i32, RunError>(
                                RunError::Exec(e),
                            ) && final(self)@ == w,
                            RunResV::Spin(w) => r == Err::<i32, RunError>(
                                RunError::Exec(VmError::OutOfFuel),
                            ) && final(self)@ == w,
                        }
                    }
                },
            },
    {
        let ghost v0 = self@;
        let (mh, mobj) = match self.db.get_main_object() {
            Err(e) => {
                proof {
                    assert(e == StoreError::MissingMain);
                }
                return Err(RunError::Store(e));
            },
            Ok(x) => x,
        };
        proof {
            assert(mobj@ == store_obj(v0.store, mh)) by {
                let i = choose|i: int|
                    0 <= i < v0.store.objects.len() && #[trigger] v0.store.objects[i] == (
                    mh,
                    mobj@,
                );
                let j = choose|j: int|
                    0 <= j < v0.store.objects.len() && (#[trigger] v0.store.objects[j]).0 == mh;
                if i != j {
                    assert(v0.store.objects[i].0 != v0.store.objects[j].0);
                }
            }
        }
        let frame = make_entry_frame(mobj);
        self.call_stack.push(frame);
        proof {
            assert(self@.frames =~= v0.frames.push(entry_frame(store_obj(v0.store, mh))));
            assert(self@.dbg =~= v0.dbg);
            assert(self@ == entry_state(v0, store_obj(v0.store, mh)));
        }
        let res = self.run(u64::MAX);
        match res {
            Ok(c) => {
                let ghost w = self@;
                self.call_stack.pop();
                proof {
                    if w.frames.len() > 0 {
                        assert(self@.frames =~= w.frames.drop_last());
                    } else {
                        assert(self@.frames =~= w.frames);
                    }
                    assert(self@.dbg =~= w.dbg);
                    assert(self@ == drop_top(w));
                }
                Ok(c)
            },
            Err(e) => Err(RunError::Exec(e)),
        }
    }

    /// Looks up a function by name and runs it, returning the exit code.
    pub fn run_function_by_name(&mut self, name: &str) -> (r: Result<i32, RunError>)
        requires
            old(self).inv(),
        ensures
            final(self).inv(),
            final(self).db == old(self).db,
            match r {
                Err(RunError::Store(e)) => e == StoreError::UnknownName && !crate::store::has_name(
                    old(self)@.store,
                    name@,
                ) && final(self)@ == old(self)@,
                _ => {
                    &&& crate::store::has_name(old(self)@.store, name@)
                    &&& {
                        let init = entry_state(
                            old(self)@,
                            store_obj(
                                old(self)@.store,
                                name_hash(old(self)@.store, name@),
                            ),
                        );
                        match run_model(init, u64::MAX as nat) {
                            RunResV::Halted(c, w) => r == Ok::<i32, RunError>(c) && final(self)@
                                == drop_top(w),
                            RunResV::Aborted(e, w) => r == Err::<i32, RunError>(
                                RunError::Exec(e),
                            ) && final(self)@ == w,
                            RunResV::Spin(w) => r == Err::<i32, RunError>(
                                RunError::Exec(VmError::OutOfFuel),
                            ) && final(self)@ == w,
                        }
                    }
                },
            },
    {
        let ghost v0 = self@;
        let (h, obj) = match self.db.get_code_object_by_name(name) {
            Err(e) => {
                proof {
                    assert(e == StoreError::UnknownName);
                }
                return Err(RunError::Store(e));
            },
            Ok(x) => x,
        };
        proof {
            assert(crate::store::has_name(v0.store, name@)) by {
                let i = choose|i: int|
                    0 <= i < v0.store.names.len() && #[trigger] v0.store.names[i] == (name@, h);
                assert(v0.store.names[i].0 == name@);
            }
            assert(h == name_hash(v0.store, name@)) by {
                let i = choose|i: int|
                    0 <= i < v0.store.names.len() && #[trigger] v0.store.names[i] == (name@, h);
                let j = choose|j: int|
                    0 <= j < v0.store.names.len() && (#[trigger] v0.store.names[j]).0 == name@;
                if i != j {
                    assert(v0.store.names[i].0 != v0.store.names[j].0);
                }
            }
            assert(obj@ == store_obj(v0.store, h)) by {
                let i = choose|i: int|
                    0 <= i < v0.store.objects.len() && #[trigger] v0.store.objects[i] == (
                    h,
                    obj@,
                );
                let j = choose|j: int|
                    0 <= j < v0.store.objects.len() && (#[trigger] v0.store.objects[j]).0 == h;
                if i != j {
                    assert(v0.store.objects[i].0 != v0.store.objects[j].0);
                }
            }
        }
        let frame = make_entry_frame(obj);
        self.call_stack.push(frame);
        proof {
            assert(self@.frames =~= v0.frames.push(
                entry_frame(store_obj(v0.store, name_hash(v0.store, name@))),
            ));
            assert(self@.dbg =~= v0.dbg);
            assert(self@ == entry_state(v0, store_obj(v0.store, name_hash(v0.store, name@))));
        }
        let res = self.run(u64::MAX);
        match res {
            Ok(c) => {
                let ghost w = self@;
                self.call_stack.pop();
                proof {
                    if w.frames.len() > 0 {
                        assert(self@.frames =~= w.frames.drop_last());
                    } else {
                        assert(self@.frames =~= w.frames);
                    }
                    assert(self@.dbg =~= w.dbg);
                    assert(self@ == drop_top(w));
                }
                Ok(c)
            },
            Err(e) => Err(RunError::Exec(e)),
        }
    }

    /// Runs the given frame on top of the call stack and returns the
    /// final state of the innermost frame, which stays on the stack.
    pub fn run_frame(&mut self, frame: StackFrame) -> (r: Result<StackFrame, VmError>)
        requires
            old(self).inv(),
        ensures
            final(self).inv(),
            final(self).db == old(self).db,
            ({
                let init = (VmV {
                    frames: old(self)@.frames.push(frame@),
                    ..old(self)@
                });
                match run_model(init, u64::MAX as nat) {
                    RunResV::Halted(c, w) => final(self)@ == w && (if w.frames.len() > 0 {
                        r matches Ok(f) && f@ == w.frames.last()
                    } else {
                        r == Err::<StackFrame, VmError>(VmError::StackUnderflow)
                    }),
                    RunResV::Aborted(e, w) => r == Err::<StackFrame, VmError>(e) && final(self)@
                        == w,
                    RunResV::Spin(w) => r == Err::<StackFrame, VmError>(VmError::OutOfFuel)
                        && final(self)@ == w,
                }
            }),
    {
        let ghost v0 = self@;
        self.call_stack.push(frame);
        proof {
            assert(self@.frames =~= v0.frames.push(self.call_stack@.last()@));
            assert(self@.dbg =~= v0.dbg);
            assert(self@ == (VmV { frames: v0.frames.push(self.call_stack@.last()@), ..v0 }));
        }
        let res = self.run(u64::MAX);
        match res {
            Err(e) => Err(e),
            Ok(_c) => {
                let depth = self.call_stack.len();
                if depth == 0 {
                    return Err(VmError::StackUnderflow);
                }
                let out = self.call_stack[depth - 1].clone();
                proof {
                    assert(out@ == self@.frames.last());
                }
                Ok(out)
            },
        }
    }
}

} // verus!

verus! {

/// Both resources the machine bounds: no frame's operand stack exceeds
/// the data cap, and the call stack never exceeds the call cap.
pub open spec fn stacks_bounded(v: VmV) -> bool {
    &&& v.frames.len() <= v.call_cap
    &&& forall|i: int| 0 <= i < v.frames.len() ==> (#[trigger] v.frames[i]).stack.len() <= v.data_cap
}

/// Bounded stacks: a step from a state within the caps stays within the
/// caps; a step that would exceed a cap aborts with the corresponding
/// overflow error instead (that abort is part of [`step_model`] itself),
/// so an execution can never outgrow the configured bounds.
pub proof fn lemma_step_preserves_bounds(v: VmV)
    requires
        stacks_bounded(v),
        v.frames.len() > 0,
    ensures
        match step_model(v) {
            StepResV::Cont(w) => stacks_bounded(w),
            StepResV::Halt(_, w) => stacks_bounded(w),
            StepResV::Abort(_) => true,
        },
{
    let f = top_frame(v);
    let code = f.code_obj.code;
    assert(f.stack.len() <= v.data_cap);
    match step_model(v) {
        StepResV::Cont(w) => {
            assert forall|i: int| 0 <= i < w.frames.len() implies (
            #[trigger] w.frames[i]).stack.len() <= w.data_cap by {
                if i < v.frames.len() && w.frames[i] == v.frames[i] {
                } else {
                    assert(v.frames[v.frames.len() - 1].stack.len() <= v.data_cap);
                    if v.frames.len() >= 2 {
                        assert(v.frames[v.frames.len() - 2].stack.len() <= v.data_cap);
                    }
                }
            }
        },
        StepResV::Halt(_, w) => {
            assert forall|i: int| 0 <= i < w.frames.len() implies (
            #[trigger] w.frames[i]).stack.len() <= w.data_cap by {
                if i < v.frames.len() && w.frames[i] == v.frames[i] {
                }
            }
        },
        StepResV::Abort(_) => {},
    }
}

/// Bounded stacks along a whole run: every state the execution passes
/// through stays within the caps.
pub proof fn lemma_run_preserves_bounds(v: VmV, fuel: nat)
    requires
        stacks_bounded(v),
    ensures
        match run_model(v, fuel) {
            RunResV::Halted(_, w) => stacks_bounded(w),
            RunResV::Aborted(_, w) => stacks_bounded(w),
            RunResV::Spin(w) => stacks_bounded(w),
        },
    decreases fuel,
{
    if v.frames.len() == 0 {
    } else if fuel == 0 {
    } else {
        lemma_step_preserves_bounds(v);
        match step_model(v) {
            StepResV::Cont(w) => {
                lemma_run_preserves_bounds(w, (fuel - 1) as nat);
            },
            StepResV::Halt(_, _) => {},
            StepResV::Abort(_) => {},
        }
    }
}

/// Determinism across budgets: once a run finishes within some budget,
/// any larger budget gives the very same outcome and final state.
pub proof fn lemma_run_fuel_monotonic(v: VmV, f1: nat, f2: nat)
    requires
        f1 <= f2,
        !(run_model(v, f1) is Spin),
    ensures
        run_model(v, f2) == run_model(v, f1),
    decreases f1,
{
    if v.frames.len() == 0 {
    } else {
        assert(f1 > 0);
        match step_model(v) {
            StepResV::Cont(w) => {
                lemma_run_fuel_monotonic(w, (f1 - 1) as nat, (f2 - 1) as nat);
            },
            StepResV::Halt(_, _) => {},
            StepResV::Abort(_) => {},
        }
    }
}

/// Determinism: the execution is a function of the initial state alone.
/// Two executions of the same stored program from equal states take the
/// same steps, end in identical final call stacks and produce identical
/// exit codes; `Dbg` only appends to the observation log and never
/// influences a transition.
pub proof fn lemma_run_deterministic(v1: VmV, v2: VmV, fuel: nat)
    requires
        v1 == v2,
    ensures
        run_model(v1, fuel) == run_model(v2, fuel),
{
}

} // verus!
