//! The code object: the immutable unit of code, its well-formedness
//! conditions, and the fixed deterministic byte encoding its content hash
//! is computed from. The encoding never changes: hashes depend on it.

use vstd::prelude::*;
use crate::CodeHash;
use crate::bytecode::{BinOp, Bytecode, Instr, InstrV, UnaryOp};
use crate::hashing::{be_byte_rep, content_hash};
use crate::value::{Value, ValV};

verus! {

broadcast use vstd::std_specs::vec::group_vec_axioms, vstd::seq::axiom_seq_index_decreases, vstd::seq::axiom_seq_subrange_decreases;

/// The immutable unit of code.
#[derive(Debug, PartialEq)]
pub struct CodeObject {
    /// The literal pool, in order.
    pub litpool: Vec<Value>,
    /// Number of formal parameters.
    pub argcount: usize,
    /// Names of the parameters (the first `argcount`) and of the locals
    /// (the rest); a local's index is an offset past the parameters.
    pub localnames: Vec<String>,
    /// Bytecode offset of each label; the index is the label id.
    pub labels: Vec<usize>,
    /// The instructions.
    pub code: Bytecode,
}

/// The mathematical shape of a code object.
pub struct CodeObjV {
    pub litpool: Seq<ValV>,
    pub argcount: usize,
    pub localnames: Seq<Seq<char>>,
    pub labels: Seq<usize>,
    pub code: Seq<InstrV>,
}

impl View for CodeObject {
    type V = CodeObjV;

    open spec fn view(&self) -> CodeObjV {
        CodeObjV {
            litpool: Seq::new(
                self.litpool@.len(),
                |i: int|
                    if 0 <= i < self.litpool@.len() {
                        self.litpool@[i]@
                    } else {
                        ValV::Bool(false)
                    },
            ),
            argcount: self.argcount,
            localnames: Seq::new(
                self.localnames@.len(),
                |i: int|
                    if 0 <= i < self.localnames@.len() {
                        self.localnames@[i]@
                    } else {
                        Seq::empty()
                    },
            ),
            labels: self.labels@,
            code: self.code@,
        }
    }
}

/// The structural invariants of a code object: every index an
/// instruction carries stays inside the region it names.
pub open spec fn wf_obj(o: CodeObjV) -> bool {
    &&& o.argcount <= o.localnames.len()
    &&& forall|k: int|
        0 <= k < o.code.len() ==> match #[trigger] o.code[k] {
            InstrV::LoadArg(i) => i < o.argcount,
            InstrV::LoadLocal(i) => o.argcount + i < o.localnames.len(),
            InstrV::StoreLocal(i) => o.argcount + i < o.localnames.len(),
            InstrV::LoadLit(i) => i < o.litpool.len(),
            InstrV::Jump(l) => l < o.labels.len() && o.labels[l as int] < o.code.len(),
            InstrV::JumpT(l) => l < o.labels.len() && o.labels[l as int] < o.code.len(),
            InstrV::JumpF(l) => l < o.labels.len() && o.labels[l as int] < o.code.len(),
            InstrV::JumpEq(l) => l < o.labels.len() && o.labels[l as int] < o.code.len(),
            InstrV::JumpNe(l) => l < o.labels.len() && o.labels[l as int] < o.code.len(),
            InstrV::JumpGt(l) => l < o.labels.len() && o.labels[l as int] < o.code.len(),
            InstrV::JumpGe(l) => l < o.labels.len() && o.labels[l as int] < o.code.len(),
            InstrV::JumpLt(l) => l < o.labels.len() && o.labels[l as int] < o.code.len(),
            InstrV::JumpLe(l) => l < o.labels.len() && o.labels[l as int] < o.code.len(),
            _ => true,
        }
}

/// The tag byte of a value in the encoding.
pub open spec fn val_tag(v: ValV) -> u8 {
    match v {
        ValV::I8(_) => 0,
        ValV::U8(_) => 1,
        ValV::I16(_) => 2,
        ValV::U16(_) => 3,
        ValV::I32(_) => 4,
        ValV::U32(_) => 5,
        ValV::I64(_) => 6,
        ValV::U64(_) => 7,
        ValV::I128(_) => 8,
        ValV::U128(_) => 9,
        ValV::Isize(_) => 10,
        ValV::Usize(_) => 11,
        ValV::Char(_) => 12,
        ValV::Bool(_) => 13,
        ValV::Hash(_) => 14,
        ValV::Str(_) => 15,
        ValV::Cont(_) => 16,
    }
}

/// A length, encoded as 8 big-endian bytes.
pub open spec fn enc_len(n: nat) -> Seq<u8> {
    be_byte_rep(n, 8)
}

/// The characters of a string, each as 4 big-endian bytes, without a
/// length prefix.
pub open spec fn enc_chars_body(s: Seq<char>) -> Seq<u8>
    decreases s.len(),
{
    if s.len() == 0 {
        Seq::empty()
    } else {
        enc_chars_body(s.drop_last()) + be_byte_rep((s.last() as u32) as nat, 4)
    }
}

/// A string: its length, then its characters.
pub open spec fn enc_chars(s: Seq<char>) -> Seq<u8> {
    enc_len(s.len()) + enc_chars_body(s)
}

/// The payload of one value, after its tag byte.
pub open spec fn enc_val_payload(v: ValV) -> Seq<u8>
    decreases v, 1int,
{
    match v {
        ValV::I8(x) => be_byte_rep((x as u8) as nat, 1),
        ValV::U8(x) => be_byte_rep(x as nat, 1),
        ValV::I16(x) => be_byte_rep((x as u16) as nat, 2),
        ValV::U16(x) => be_byte_rep(x as nat, 2),
        ValV::I32(x) => be_byte_rep((x as u32) as nat, 4),
        ValV::U32(x) => be_byte_rep(x as nat, 4),
        ValV::I64(x) => be_byte_rep((x as u64) as nat, 8),
        ValV::U64(x) => be_byte_rep(x as nat, 8),
        ValV::I128(x) => be_byte_rep((x as u128) as nat, 16),
        ValV::U128(x) => be_byte_rep(x as nat, 16),
        ValV::Isize(x) => be_byte_rep(((x as i64) as u64) as nat, 8),
        ValV::Usize(x) => be_byte_rep((x as u64) as nat, 8),
        ValV::Char(c) => be_byte_rep((c as u32) as nat, 4),
        ValV::Bool(b) => seq![if b { 1u8 } else { 0u8 }],
        ValV::Hash(h) => be_byte_rep(h as nat, 16),
        ValV::Str(s) => enc_chars(s),
        ValV::Cont(elems) => enc_len(elems.len()) + enc_vals_body(elems),
    }
}

/// One value: its tag byte, then its payload.
pub open spec fn enc_val(v: ValV) -> Seq<u8>
    decreases v, 2int,
{
    seq![val_tag(v)] + enc_val_payload(v)
}

/// A sequence of values, concatenated, without a length prefix.
pub open spec fn enc_vals_body(vs: Seq<ValV>) -> Seq<u8>
    decreases vs, 0int,
{
    if vs.len() == 0 {
        Seq::empty()
    } else {
        enc_vals_body(vs.drop_last()) + enc_val(vs.last())
    }
}

/// The tag byte of an instruction in the encoding.
pub open spec fn instr_tag(i: InstrV) -> u8 {
    match i {
        InstrV::LoadArg(_) => 0,
        InstrV::LoadLocal(_) => 1,
        InstrV::LoadLit(_) => 2,
        InstrV::StoreLocal(_) => 3,
        InstrV::Pop => 4,
        InstrV::Dup => 5,
        InstrV::LoadFunc(_) => 6,
        InstrV::LoadDyn(_) => 7,
        InstrV::Call => 8,
        InstrV::CallSelf => 9,
        InstrV::Return => 10,
        InstrV::ReturnVal => 11,
        InstrV::Jump(_) => 12,
        InstrV::JumpT(_) => 13,
        InstrV::JumpF(_) => 14,
        InstrV::JumpEq(_) => 15,
        InstrV::JumpNe(_) => 16,
        InstrV::JumpGt(_) => 17,
        InstrV::JumpGe(_) => 18,
        InstrV::JumpLt(_) => 19,
        InstrV::JumpLe(_) => 20,
        InstrV::BinOp(BinOp::Add) => 21,
        InstrV::BinOp(BinOp::Mul) => 22,
        InstrV::BinOp(BinOp::Div) => 23,
        InstrV::BinOp(BinOp::Sub) => 24,
        InstrV::BinOp(BinOp::Mod) => 25,
        InstrV::BinOp(BinOp::Shl) => 26,
        InstrV::BinOp(BinOp::Shr) => 27,
        InstrV::BinOp(BinOp::And) => 28,
        InstrV::BinOp(BinOp::Or) => 29,
        InstrV::BinOp(BinOp::Eq) => 30,
        InstrV::UnaryOp(UnaryOp::Not) => 31,
        InstrV::UnaryOp(UnaryOp::Neg) => 32,
        InstrV::Dbg => 33,
        InstrV::Nop => 34,
    }
}

/// One instruction: its tag byte, then its operand's bytes.
pub open spec fn enc_instr(i: InstrV) -> Seq<u8> {
    seq![instr_tag(i)] + match i {
        InstrV::LoadArg(n) => enc_len(n as nat),
        InstrV::LoadLocal(n) => enc_len(n as nat),
        InstrV::LoadLit(n) => enc_len(n as nat),
        InstrV::StoreLocal(n) => enc_len(n as nat),
        InstrV::LoadFunc(h) => be_byte_rep(h as nat, 16),
        InstrV::LoadDyn(s) => enc_chars(s),
        InstrV::Jump(n) => enc_len(n as nat),
        InstrV::JumpT(n) => enc_len(n as nat),
        InstrV::JumpF(n) => enc_len(n as nat),
        InstrV::JumpEq(n) => enc_len(n as nat),
        InstrV::JumpNe(n) => enc_len(n as nat),
        InstrV::JumpGt(n) => enc_len(n as nat),
        InstrV::JumpGe(n) => enc_len(n as nat),
        InstrV::JumpLt(n) => enc_len(n as nat),
        InstrV::JumpLe(n) => enc_len(n as nat),
        _ => Seq::empty(),
    }
}

/// A sequence of instructions, concatenated.
pub open spec fn enc_instrs_body(is: Seq<InstrV>) -> Seq<u8>
    decreases is.len(),
{
    if is.len() == 0 {
        Seq::empty()
    } else {
        enc_instrs_body(is.drop_last()) + enc_instr(is.last())
    }
}

/// A sequence of strings, each encoded, concatenated.
pub open spec fn enc_names_body(ns: Seq<Seq<char>>) -> Seq<u8>
    decreases ns.len(),
{
    if ns.len() == 0 {
        Seq::empty()
    } else {
        enc_names_body(ns.drop_last()) + enc_chars(ns.last())
    }
}

/// A sequence of label offsets, each as 8 bytes, concatenated.
pub open spec fn enc_labels_body(ls: Seq<usize>) -> Seq<u8>
    decreases ls.len(),
{
    if ls.len() == 0 {
        Seq::empty()
    } else {
        enc_labels_body(ls.drop_last()) + enc_len(ls.last() as nat)
    }
}

/// The serialized form of a code object: arity, literal pool, local
/// names, labels and code, each list preceded by its length.
pub open spec fn encode_obj(o: CodeObjV) -> Seq<u8> {
    enc_len(o.argcount as nat) + enc_len(o.litpool.len()) + enc_vals_body(o.litpool) + enc_len(
        o.localnames.len(),
    ) + enc_names_body(o.localnames) + enc_len(o.labels.len()) + enc_labels_body(o.labels)
        + enc_len(o.code.len()) + enc_instrs_body(o.code)
}

/// The content hash of a code object: the hash of its serialized form.
pub open spec fn obj_hash(o: CodeObjV) -> u128 {
    content_hash(encode_obj(o))
}

} // verus!

verus! {

/// Appends the 8-byte encoding of a length.
fn push_len(out: &mut Vec<u8>, n: usize)
    ensures
        final(out)@ == old(out)@ + enc_len(n as nat),
{
    let bytes = crate::hashing::be_bytes(n as u128, 8);
    proof {
        assert(be_byte_rep(n as u128 as nat, 8) == be_byte_rep(n as nat, 8));
    }
    push_all(out, &bytes);
}

/// Appends the `width`-byte big-endian encoding of `n`.
fn push_be(out: &mut Vec<u8>, n: u128, width: usize)
    ensures
        final(out)@ == old(out)@ + be_byte_rep(n as nat, width as nat),
{
    let bytes = crate::hashing::be_bytes(n, width);
    push_all(out, &bytes);
}

/// Appends every byte of `src`.
fn push_all(out: &mut Vec<u8>, src: &Vec<u8>)
    ensures
        final(out)@ == old(out)@ + src@,
{
    let mut k: usize = 0;
    while k < src.len()
        invariant
            k <= src@.len(),
            out@ == old(out)@ + src@.take(k as int),
        decreases src@.len() - k,
    {
        out.push(src[k]);
        proof {
            assert(old(out)@ + src@.take(k as int + 1) =~= (old(out)@ + src@.take(k as int)).push(
                src@[k as int],
            ));
        }
        k = k + 1;
    }
    proof {
        assert(src@.take(src@.len() as int) =~= src@);
    }
}

/// Appends the encoding of a string: length, then 4 bytes per character.
fn push_chars(out: &mut Vec<u8>, s: &String)
    ensures
        final(out)@ == old(out)@ + enc_chars(s@),
{
    let cs = crate::text::chars_of(s.as_str());
    push_len(out, cs.len());
    let ghost base = out@;
    let mut k: usize = 0;
    while k < cs.len()
        invariant
            k <= cs@.len(),
            out@ == base + enc_chars_body(cs@.take(k as int)),
        decreases cs@.len() - k,
    {
        let c = cs[k];
        proof {
            assert(cs@.take(k as int + 1).drop_last() =~= cs@.take(k as int));
            assert(cs@.take(k as int + 1).last() == cs@[k as int]);
        }
        push_be(out, (c as u32) as u128, 4);
        proof {
            assert(base + enc_chars_body(cs@.take(k as int + 1)) =~= (base + enc_chars_body(
                cs@.take(k as int),
            )) + be_byte_rep((c as u32) as nat, 4));
        }
        k = k + 1;
    }
    proof {
        assert(cs@.take(cs@.len() as int) =~= cs@);
        assert(old(out)@ + enc_chars(s@) =~= (old(out)@ + enc_len(s@.len())) + enc_chars_body(s@));
    }
}

/// Appends the encoding of one value: tag byte, then payload.
#[verifier::rlimit(100)]
fn push_value(out: &mut Vec<u8>, v: &Value)
    ensures
        final(out)@ == old(out)@ + enc_val(v@),
    decreases v,
{
    proof {
        assert(enc_val(v@) =~= seq![val_tag(v@)] + enc_val_payload(v@));
    }
    match v {
        Value::I8(x) => {
            out.push(0u8);
            push_be(out, (*x as u8) as u128, 1);
            proof {
                assert(old(out)@ + enc_val(v@) =~= ((old(out)@).push(0u8)) + be_byte_rep(
                    (*x as u8) as nat,
                    1,
                ));
            }
        },
        Value::U8(x) => {
            out.push(1u8);
            push_be(out, *x as u128, 1);
            proof {
                assert(old(out)@ + enc_val(v@) =~= ((old(out)@).push(1u8)) + be_byte_rep(
                    *x as nat,
                    1,
                ));
            }
        },
        Value::I16(x) => {
            out.push(2u8);
            push_be(out, (*x as u16) as u128, 2);
            proof {
                assert(old(out)@ + enc_val(v@) =~= ((old(out)@).push(2u8)) + be_byte_rep(
                    (*x as u16) as nat,
                    2,
                ));
            }
        },
        Value::U16(x) => {
            out.push(3u8);
            push_be(out, *x as u128, 2);
            proof {
                assert(old(out)@ + enc_val(v@) =~= ((old(out)@).push(3u8)) + be_byte_rep(
                    *x as nat,
                    2,
                ));
            }
        },
        Value::I32(x) => {
            out.push(4u8);
            push_be(out, (*x as u32) as u128, 4);
            proof {
                assert(old(out)@ + enc_val(v@) =~= ((old(out)@).push(4u8)) + be_byte_rep(
                    (*x as u32) as nat,
                    4,
                ));
            }
        },
        Value::U32(x) => {
            out.push(5u8);
            push_be(out, *x as u128, 4);
            proof {
                assert(old(out)@ + enc_val(v@) =~= ((old(out)@).push(5u8)) + be_byte_rep(
                    *x as nat,
                    4,
                ));
            }
        },
        Value::I64(x) => {
            out.push(6u8);
            push_be(out, (*x as u64) as u128, 8);
            proof {
                assert(old(out)@ + enc_val(v@) =~= ((old(out)@).push(6u8)) + be_byte_rep(
                    (*x as u64) as nat,
                    8,
                ));
            }
        },
        Value::U64(x) => {
            out.push(7u8);
            push_be(out, *x as u128, 8);
            proof {
                assert(old(out)@ + enc_val(v@) =~= ((old(out)@).push(7u8)) + be_byte_rep(
                    *x as nat,
                    8,
                ));
            }
        },
        Value::I128(x) => {
            out.push(8u8);
            push_be(out, *x as u128, 16);
            proof {
                assert(old(out)@ + enc_val(v@) =~= ((old(out)@).push(8u8)) + be_byte_rep(
                    (*x as u128) as nat,
                    16,
                ));
            }
        },
        Value::U128(x) => {
            out.push(9u8);
            push_be(out, *x, 16);
            proof {
                assert(old(out)@ + enc_val(v@) =~= ((old(out)@).push(9u8)) + be_byte_rep(
                    *x as nat,
                    16,
                ));
            }
        },
        Value::Isize(x) => {
            out.push(10u8);
            push_be(out, ((*x as i64) as u64) as u128, 8);
            proof {
                assert(old(out)@ + enc_val(v@) =~= ((old(out)@).push(10u8)) + be_byte_rep(
                    ((*x as i64) as u64) as nat,
                    8,
                ));
            }
        },
        Value::Usize(x) => {
            out.push(11u8);
            push_be(out, (*x as u64) as u128, 8);
            proof {
                assert(old(out)@ + enc_val(v@) =~= ((old(out)@).push(11u8)) + be_byte_rep(
                    (*x as u64) as nat,
                    8,
                ));
            }
        },
        Value::Char(c) => {
            out.push(12u8);
            push_be(out, (*c as u32) as u128, 4);
            proof {
                assert(old(out)@ + enc_val(v@) =~= ((old(out)@).push(12u8)) + be_byte_rep(
                    (*c as u32) as nat,
                    4,
                ));
            }
        },
        Value::Bool(b) => {
            out.push(13u8);
            if *b {
                out.push(1u8);
            } else {
                out.push(0u8);
            }
            proof {
                assert(old(out)@ + enc_val(v@) =~= ((old(out)@).push(13u8)).push(
                    if *b {
                        1u8
                    } else {
                        0u8
                    },
                ));
            }
        },
        Value::Hash(h) => {
            out.push(14u8);
            push_be(out, *h, 16);
            proof {
                assert(old(out)@ + enc_val(v@) =~= ((old(out)@).push(14u8)) + be_byte_rep(
                    *h as nat,
                    16,
                ));
            }
        },
        Value::String(s) => {
            out.push(15u8);
            push_chars(out, s);
            proof {
                assert(old(out)@ + enc_val(v@) =~= ((old(out)@).push(15u8)) + enc_chars(s@));
            }
        },
        Value::Container(elems) => {
            out.push(16u8);
            push_len(out, elems.len());
            let ghost base = out@;
            let ghost eview = v@->Cont_0;
            proof {
                assert(eview.len() == elems@.len());
                assert(forall|i: int|
                    0 <= i < elems@.len() ==> eview[i] == #[trigger] elems@[i]@);
            }
            let mut k: usize = 0;
            while k < elems.len()
                invariant
                    k <= elems@.len(),
                    eview.len() == elems@.len(),
                    forall|i: int| 0 <= i < elems@.len() ==> eview[i] == #[trigger] elems@[i]@,
                    v == Value::Container(*elems),
                    out@ == base + enc_vals_body(eview.take(k as int)),
                decreases elems@.len() - k,
            {
                proof {
                    assert(decreases_to!(*v => v->Container_0));
                    assert(v->Container_0 == *elems);
                    assert(decreases_to!(*elems => elems@));
                    assert(decreases_to!(elems@ => elems@[k as int]));
                }
                push_value(out, &elems[k]);
                proof {
                    assert(eview.take(k as int + 1).drop_last() =~= eview.take(k as int));
                    assert(eview.take(k as int + 1).last() == eview[k as int]);
                    assert(eview[k as int] == elems@[k as int]@);
                    assert(base + enc_vals_body(eview.take(k as int + 1)) =~= (base
                        + enc_vals_body(eview.take(k as int))) + enc_val(elems@[k as int]@));
                }
                k = k + 1;
            }
            proof {
                assert(eview.take(eview.len() as int) =~= eview);
                assert(old(out)@ + enc_val(v@) =~= (((old(out)@).push(16u8)) + enc_len(
                    eview.len(),
                )) + enc_vals_body(eview));
            }
        },
    }
}

} // verus!

verus! {

/// Appends the encoding of one instruction: tag byte, then operand.
#[verifier::rlimit(100)]
fn push_instr(out: &mut Vec<u8>, i: &Instr)
    ensures
        final(out)@ == old(out)@ + enc_instr(i@),
{
    proof {
        assert(enc_instr(i@).len() >= 1);
    }
    match i {
        Instr::LoadArg(n) => {
            out.push(0u8);
            push_len(out, *n);
            proof {
                assert(old(out)@ + enc_instr(i@) =~= ((old(out)@).push(0u8)) + enc_len(*n as nat));
            }
        },
        Instr::LoadLocal(n) => {
            out.push(1u8);
            push_len(out, *n);
            proof {
                assert(old(out)@ + enc_instr(i@) =~= ((old(out)@).push(1u8)) + enc_len(*n as nat));
            }
        },
        Instr::LoadLit(n) => {
            out.push(2u8);
            push_len(out, *n);
            proof {
                assert(old(out)@ + enc_instr(i@) =~= ((old(out)@).push(2u8)) + enc_len(*n as nat));
            }
        },
        Instr::StoreLocal(n) => {
            out.push(3u8);
            push_len(out, *n);
            proof {
                assert(old(out)@ + enc_instr(i@) =~= ((old(out)@).push(3u8)) + enc_len(*n as nat));
            }
        },
        Instr::Pop => {
            out.push(4u8);
            proof {
                assert(old(out)@ + enc_instr(i@) =~= (old(out)@).push(4u8));
            }
        },
        Instr::Dup => {
            out.push(5u8);
            proof {
                assert(old(out)@ + enc_instr(i@) =~= (old(out)@).push(5u8));
            }
        },
        Instr::LoadFunc(h) => {
            out.push(6u8);
            push_be(out, *h, 16);
            proof {
                assert(old(out)@ + enc_instr(i@) =~= ((old(out)@).push(6u8)) + be_byte_rep(
                    *h as nat,
                    16,
                ));
            }
        },
        Instr::LoadDyn(s) => {
            out.push(7u8);
            push_chars(out, s);
            proof {
                assert(old(out)@ + enc_instr(i@) =~= ((old(out)@).push(7u8)) + enc_chars(s@));
            }
        },
        Instr::Call => {
            out.push(8u8);
            proof {
                assert(old(out)@ + enc_instr(i@) =~= (old(out)@).push(8u8));
            }
        },
        Instr::CallSelf => {
            out.push(9u8);
            proof {
                assert(old(out)@ + enc_instr(i@) =~= (old(out)@).push(9u8));
            }
        },
        Instr::Return => {
            out.push(10u8);
            proof {
                assert(old(out)@ + enc_instr(i@) =~= (old(out)@).push(10u8));
            }
        },
        Instr::ReturnVal => {
            out.push(11u8);
            proof {
                assert(old(out)@ + enc_instr(i@) =~= (old(out)@).push(11u8));
            }
        },
        Instr::Jump(n) => {
            out.push(12u8);
            push_len(out, *n);
            proof {
                assert(old(out)@ + enc_instr(i@) =~= ((old(out)@).push(12u8)) + enc_len(
                    *n as nat,
                ));
            }
        },
        Instr::JumpT(n) => {
            out.push(13u8);
            push_len(out, *n);
            proof {
                assert(old(out)@ + enc_instr(i@) =~= ((old(out)@).push(13u8)) + enc_len(
                    *n as nat,
                ));
            }
        },
        Instr::JumpF(n) => {
            out.push(14u8);
            push_len(out, *n);
            proof {
                assert(old(out)@ + enc_instr(i@) =~= ((old(out)@).push(14u8)) + enc_len(
                    *n as nat,
                ));
            }
        },
        Instr::JumpEq(n) => {
            out.push(15u8);
            push_len(out, *n);
            proof {
                assert(old(out)@ + enc_instr(i@) =~= ((old(out)@).push(15u8)) + enc_len(
                    *n as nat,
                ));
            }
        },
        Instr::JumpNe(n) => {
            out.push(16u8);
            push_len(out, *n);
            proof {
                assert(old(out)@ + enc_instr(i@) =~= ((old(out)@).push(16u8)) + enc_len(
                    *n as nat,
                ));
            }
        },
        Instr::JumpGt(n) => {
            out.push(17u8);
            push_len(out, *n);
            proof {
                assert(old(out)@ + enc_instr(i@) =~= ((old(out)@).push(17u8)) + enc_len(
                    *n as nat,
                ));
            }
        },
        Instr::JumpGe(n) => {
            out.push(18u8);
            push_len(out, *n);
            proof {
                assert(old(out)@ + enc_instr(i@) =~= ((old(out)@).push(18u8)) + enc_len(
                    *n as nat,
                ));
            }
        },
        Instr::JumpLt(n) => {
            out.push(19u8);
            push_len(out, *n);
            proof {
                assert(old(out)@ + enc_instr(i@) =~= ((old(out)@).push(19u8)) + enc_len(
                    *n as nat,
                ));
            }
        },
        Instr::JumpLe(n) => {
            out.push(20u8);
            push_len(out, *n);
            proof {
                assert(old(out)@ + enc_instr(i@) =~= ((old(out)@).push(20u8)) + enc_len(
                    *n as nat,
                ));
            }
        },
        Instr::BinOp(op) => {
            let tag: u8 = match op {
                BinOp::Add => 21,
                BinOp::Mul => 22,
                BinOp::Div => 23,
                BinOp::Sub => 24,
                BinOp::Mod => 25,
                BinOp::Shl => 26,
                BinOp::Shr => 27,
                BinOp::And => 28,
                BinOp::Or => 29,
                BinOp::Eq => 30,
            };
            out.push(tag);
            proof {
                assert(tag == instr_tag(i@));
                assert(old(out)@ + enc_instr(i@) =~= (old(out)@).push(instr_tag(i@)));
            }
        },
        Instr::UnaryOp(op) => {
            let tag: u8 = match op {
                UnaryOp::Not => 31,
                UnaryOp::Neg => 32,
            };
            out.push(tag);
            proof {
                assert(tag == instr_tag(i@));
                assert(old(out)@ + enc_instr(i@) =~= (old(out)@).push(instr_tag(i@)));
            }
        },
        Instr::Dbg => {
            out.push(33u8);
            proof {
                assert(old(out)@ + enc_instr(i@) =~= (old(out)@).push(33u8));
            }
        },
        Instr::Nop => {
            out.push(34u8);
            proof {
                assert(old(out)@ + enc_instr(i@) =~= (old(out)@).push(34u8));
            }
        },
    }
}

/// Serializes a code object into its fixed byte encoding.
pub fn encode_code_object(o: &CodeObject) -> (r: Vec<u8>)
    ensures
        r@ == encode_obj(o@),
{
    let ghost ov = o@;
    let mut out: Vec<u8> = Vec::new();
    push_len(&mut out, o.argcount);
    push_len(&mut out, o.litpool.len());
    let ghost base1 = out@;
    let mut k: usize = 0;
    while k < o.litpool.len()
        invariant
            k <= o.litpool@.len(),
            ov == o@,
            ov.litpool.len() == o.litpool@.len(),
            out@ == base1 + enc_vals_body(ov.litpool.take(k as int)),
        decreases o.litpool@.len() - k,
    {
        push_value(&mut out, &o.litpool[k]);
        proof {
            assert(ov.litpool.take(k as int + 1).drop_last() =~= ov.litpool.take(k as int));
            assert(ov.litpool.take(k as int + 1).last() == ov.litpool[k as int]);
            assert(ov.litpool[k as int] == o.litpool@[k as int]@);
            assert(base1 + enc_vals_body(ov.litpool.take(k as int + 1)) =~= (base1
                + enc_vals_body(ov.litpool.take(k as int))) + enc_val(o.litpool@[k as int]@));
        }
        k = k + 1;
    }
    proof {
        assert(ov.litpool.take(ov.litpool.len() as int) =~= ov.litpool);
    }
    push_len(&mut out, o.localnames.len());
    let ghost base2 = out@;
    let mut k2: usize = 0;
    while k2 < o.localnames.len()
        invariant
            k2 <= o.localnames@.len(),
            ov == o@,
            ov.localnames.len() == o.localnames@.len(),
            out@ == base2 + enc_names_body(ov.localnames.take(k2 as int)),
        decreases o.localnames@.len() - k2,
    {
        push_chars(&mut out, &o.localnames[k2]);
        proof {
            assert(ov.localnames.take(k2 as int + 1).drop_last() =~= ov.localnames.take(
                k2 as int,
            ));
            assert(ov.localnames.take(k2 as int + 1).last() == ov.localnames[k2 as int]);
            assert(ov.localnames[k2 as int] == o.localnames@[k2 as int]@);
            assert(base2 + enc_names_body(ov.localnames.take(k2 as int + 1)) =~= (base2
                + enc_names_body(ov.localnames.take(k2 as int))) + enc_chars(
                o.localnames@[k2 as int]@,
            ));
        }
        k2 = k2 + 1;
    }
    proof {
        assert(ov.localnames.take(ov.localnames.len() as int) =~= ov.localnames);
    }
    push_len(&mut out, o.labels.len());
    let ghost base3 = out@;
    let mut k3: usize = 0;
    while k3 < o.labels.len()
        invariant
            k3 <= o.labels@.len(),
            ov == o@,
            ov.labels == o.labels@,
            out@ == base3 + enc_labels_body(ov.labels.take(k3 as int)),
        decreases o.labels@.len() - k3,
    {
        push_len(&mut out, o.labels[k3]);
        proof {
            assert(ov.labels.take(k3 as int + 1).drop_last() =~= ov.labels.take(k3 as int));
            assert(ov.labels.take(k3 as int + 1).last() == ov.labels[k3 as int]);
            assert(base3 + enc_labels_body(ov.labels.take(k3 as int + 1)) =~= (base3
                + enc_labels_body(ov.labels.take(k3 as int))) + enc_len(
                o.labels@[k3 as int] as nat,
            ));
        }
        k3 = k3 + 1;
    }
    proof {
        assert(ov.labels.take(ov.labels.len() as int) =~= ov.labels);
    }
    push_len(&mut out, o.code.len());
    let ghost base4 = out@;
    let mut k4: usize = 0;
    while k4 < o.code.len()
        invariant
            k4 <= ov.code.len(),
            ov == o@,
            ov.code == o.code@,
            out@ == base4 + enc_instrs_body(ov.code.take(k4 as int)),
        decreases ov.code.len() - k4,
    {
        push_instr(&mut out, o.code.index(k4));
        proof {
            assert(ov.code.take(k4 as int + 1).drop_last() =~= ov.code.take(k4 as int));
            assert(ov.code.take(k4 as int + 1).last() == ov.code[k4 as int]);
            assert(base4 + enc_instrs_body(ov.code.take(k4 as int + 1)) =~= (base4
                + enc_instrs_body(ov.code.take(k4 as int))) + enc_instr(ov.code[k4 as int]));
        }
        k4 = k4 + 1;
    }
    proof {
        assert(ov.code.take(ov.code.len() as int) =~= ov.code);
        assert(out@ =~= encode_obj(ov));
    }
    out
}

impl CodeObject {
    /// The content hash: the truncated SHA-512 digest of the serialized
    /// object.
    pub fn hash(&self) -> (h: CodeHash)
        ensures
            h == obj_hash(self@),
    {
        let bytes = encode_code_object(self);
        crate::hashing::compute_content_hash(&bytes)
    }

    /// The rendered content hash: `0x` and 32 lowercase hexadecimal
    /// digits.
    pub fn hash_str(&self) -> (r: String)
        ensures
            r@ == crate::hashing::hash_display(obj_hash(self@)),
    {
        let h = self.hash();
        let digits = crate::text::hex_chars(h, 32);
        let mut cs: Vec<char> = Vec::new();
        cs.push('0');
        cs.push('x');
        let mut k: usize = 0;
        while k < digits.len()
            invariant
                k <= digits@.len(),
                cs@ == seq!['0', 'x'] + digits@.take(k as int),
            decreases digits@.len() - k,
        {
            cs.push(digits[k]);
            proof {
                assert(seq!['0', 'x'] + digits@.take(k as int + 1) =~= (seq!['0', 'x']
                    + digits@.take(k as int)).push(digits@[k as int]));
            }
            k = k + 1;
        }
        proof {
            assert(digits@.take(digits@.len() as int) =~= digits@);
        }
        crate::text::string_from_chars(&cs)
    }
}

/// Copies a vector of values, preserving views.
pub fn clone_values(v: &Vec<Value>) -> (r: Vec<Value>)
    ensures
        r@.len() == v@.len(),
        forall|i: int| 0 <= i < v@.len() ==> #[trigger] r@[i]@ == v@[i]@,
{
    let mut out: Vec<Value> = Vec::new();
    let mut k: usize = 0;
    while k < v.len()
        invariant
            k <= v@.len(),
            out@.len() == k,
            forall|i: int| 0 <= i < k ==> #[trigger] out@[i]@ == v@[i]@,
        decreases v@.len() - k,
    {
        out.push(v[k].clone());
        k = k + 1;
    }
    out
}

/// Copies a vector of strings, preserving views.
pub fn clone_strings(v: &Vec<String>) -> (r: Vec<String>)
    ensures
        r@.len() == v@.len(),
        forall|i: int| 0 <= i < v@.len() ==> #[trigger] r@[i]@ == v@[i]@,
{
    let mut out: Vec<String> = Vec::new();
    let mut k: usize = 0;
    while k < v.len()
        invariant
            k <= v@.len(),
            out@.len() == k,
            forall|i: int| 0 <= i < k ==> #[trigger] out@[i]@ == v@[i]@,
        decreases v@.len() - k,
    {
        out.push(v[k].clone());
        k = k + 1;
    }
    out
}

/// Copies a vector of offsets.
pub fn clone_usizes(v: &Vec<usize>) -> (r: Vec<usize>)
    ensures
        r@ == v@,
{
    let mut out: Vec<usize> = Vec::new();
    let mut k: usize = 0;
    while k < v.len()
        invariant
            k <= v@.len(),
            out@ == v@.take(k as int),
        decreases v@.len() - k,
    {
        out.push(v[k]);
        proof {
            assert(v@.take(k as int + 1) =~= v@.take(k as int).push(v@[k as int]));
        }
        k = k + 1;
    }
    proof {
        assert(v@.take(v@.len() as int) =~= v@);
    }
    out
}

impl Clone for CodeObject {
    /// A deep copy with the same view.
    fn clone(&self) -> (r: CodeObject)
        ensures
            r@ == self@,
    {
        let r = CodeObject {
            litpool: clone_values(&self.litpool),
            argcount: self.argcount,
            localnames: clone_strings(&self.localnames),
            labels: clone_usizes(&self.labels),
            code: self.code.clone(),
        };
        proof {
            assert(forall|i: int|
                0 <= i < r.litpool@.len() ==> #[trigger] r@.litpool[i] == r.litpool@[i]@);
            assert(forall|i: int|
                0 <= i < self.litpool@.len() ==> #[trigger] self@.litpool[i]
                    == self.litpool@[i]@);
            assert(r@.litpool =~= self@.litpool);
            assert(forall|i: int|
                0 <= i < r.localnames@.len() ==> #[trigger] r@.localnames[i]
                    == r.localnames@[i]@);
            assert(forall|i: int|
                0 <= i < self.localnames@.len() ==> #[trigger] self@.localnames[i]
                    == self.localnames@[i]@);
            assert(r@.localnames =~= self@.localnames);
        }
        r
    }
}

} // verus!
