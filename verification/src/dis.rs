//! The disassembler: renders a stored code object back into assembly
//! text, with literals, generated label markers and one instruction per
//! line, stated as a spec-level model the executable renderer mirrors.

use vstd::prelude::*;
use crate::bytecode::{BinOp, Bytecode, Instr, InstrV, UnaryOp};
use crate::hashing::hash_display;
use crate::object::{CodeObject, CodeObjV};
use crate::store::{Store, StoreError};
use crate::text::{chars_of, dec_chars, dec_chars_signed, dec_rep, dec_rep_signed, hex_chars, hex_rep, string_from_chars};
use crate::value::{ValV, Value};
use crate::{CodeHash, VmError};
use crate::parser::{append_chars, join_nl, join_rec, vv_view};

verus! {

/// The text of one literal-pool value: strings quoted, hashes in hex,
/// numbers in decimal, characters and booleans as themselves.
pub open spec fn lit_text(v: ValV) -> Seq<char> {
    match v {
        ValV::I8(x) => dec_rep_signed(x as int),
        ValV::U8(x) => dec_rep(x as nat),
        ValV::I16(x) => dec_rep_signed(x as int),
        ValV::U16(x) => dec_rep(x as nat),
        ValV::I32(x) => dec_rep_signed(x as int),
        ValV::U32(x) => dec_rep(x as nat),
        ValV::I64(x) => dec_rep_signed(x as int),
        ValV::U64(x) => dec_rep(x as nat),
        ValV::I128(x) => dec_rep_signed(x as int),
        ValV::U128(x) => dec_rep(x as nat),
        ValV::Isize(x) => dec_rep_signed(x as int),
        ValV::Usize(x) => dec_rep(x as nat),
        ValV::Char(c) => seq![c],
        ValV::Bool(b) => if b {
            "true"@
        } else {
            "false"@
        },
        ValV::Hash(h) => hash_display(h),
        ValV::Str(s) => seq!['"'] + s + seq!['"'],
        ValV::Cont(_) => "<cont_obj>"@,
    }
}

/// The plain text of one instruction: the mnemonic, then its operand.
pub open spec fn instr_display(i: InstrV) -> Seq<char> {
    match i {
        InstrV::LoadArg(n) => "load_arg "@ + dec_rep(n as nat),
        InstrV::LoadLocal(n) => "load_loc "@ + dec_rep(n as nat),
        InstrV::LoadLit(n) => "load_lit "@ + dec_rep(n as nat),
        InstrV::StoreLocal(n) => "store_loc "@ + dec_rep(n as nat),
        InstrV::Pop => "pop"@,
        InstrV::Dup => "dup"@,
        InstrV::LoadFunc(h) => "load_func "@ + hash_display(h),
        InstrV::LoadDyn(s) => "load_dyn $"@ + s,
        InstrV::Call => "call"@,
        InstrV::CallSelf => "call_self"@,
        InstrV::Return => "ret"@,
        InstrV::ReturnVal => "ret_val"@,
        InstrV::Jump(n) => "jmp "@ + dec_rep(n as nat),
        InstrV::JumpT(n) => "jmp_t "@ + dec_rep(n as nat),
        InstrV::JumpF(n) => "jmp_f "@ + dec_rep(n as nat),
        InstrV::JumpEq(n) => "jmp_eq "@ + dec_rep(n as nat),
        InstrV::JumpNe(n) => "jmp_ne "@ + dec_rep(n as nat),
        InstrV::JumpGt(n) => "jmp_gt "@ + dec_rep(n as nat),
        InstrV::JumpGe(n) => "jmp_ge "@ + dec_rep(n as nat),
        InstrV::JumpLt(n) => "jmp_lt "@ + dec_rep(n as nat),
        InstrV::JumpLe(n) => "jmp_le "@ + dec_rep(n as nat),
        InstrV::BinOp(BinOp::Add) => "add"@,
        InstrV::BinOp(BinOp::Mul) => "mul"@,
        InstrV::BinOp(BinOp::Div) => "div"@,
        InstrV::BinOp(BinOp::Sub) => "sub"@,
        InstrV::BinOp(BinOp::Mod) => "mod"@,
        InstrV::BinOp(BinOp::Shl) => "shl"@,
        InstrV::BinOp(BinOp::Shr) => "shr"@,
        InstrV::BinOp(BinOp::And) => "and"@,
        InstrV::BinOp(BinOp::Or) => "or"@,
        InstrV::BinOp(BinOp::Eq) => "eq"@,
        InstrV::UnaryOp(UnaryOp::Not) => "not"@,
        InstrV::UnaryOp(UnaryOp::Neg) => "neg"@,
        InstrV::Dbg => "dbg"@,
        InstrV::Nop => "nop"@,
    }
}

/// One indented assembly line for an instruction; jump targets are
/// rendered as label names.
pub open spec fn instr_line(i: InstrV) -> Seq<char> {
    "    "@ + match i {
        InstrV::Jump(n) => "jmp L"@ + dec_rep(n as nat),
        InstrV::JumpT(n) => "jmp_t L"@ + dec_rep(n as nat),
        InstrV::JumpF(n) => "jmp_f L"@ + dec_rep(n as nat),
        InstrV::JumpEq(n) => "jmp_eq L"@ + dec_rep(n as nat),
        InstrV::JumpNe(n) => "jmp_ne L"@ + dec_rep(n as nat),
        InstrV::JumpGt(n) => "jmp_gt L"@ + dec_rep(n as nat),
        InstrV::JumpGe(n) => "jmp_ge L"@ + dec_rep(n as nat),
        InstrV::JumpLt(n) => "jmp_lt L"@ + dec_rep(n as nat),
        InstrV::JumpLe(n) => "jmp_le L"@ + dec_rep(n as nat),
        _ => instr_display(i),
    }
}

/// Renders one instruction as an indented assembly line.
#[verifier::rlimit(100)]
pub fn render_instr_line(i: &Instr) -> (r: Vec<char>)
    ensures
        r@ == instr_line(i@),
{
    let mut out = chars_of("    ");
    match i {
        Instr::LoadArg(n) => {
            append_chars(&mut out, &chars_of("load_arg "));
            append_chars(&mut out, &dec_chars(*n as u128));
        },
        Instr::LoadLocal(n) => {
            append_chars(&mut out, &chars_of("load_loc "));
            append_chars(&mut out, &dec_chars(*n as u128));
        },
        Instr::LoadLit(n) => {
            append_chars(&mut out, &chars_of("load_lit "));
            append_chars(&mut out, &dec_chars(*n as u128));
        },
        Instr::StoreLocal(n) => {
            append_chars(&mut out, &chars_of("store_loc "));
            append_chars(&mut out, &dec_chars(*n as u128));
        },
        Instr::Pop => {
            append_chars(&mut out, &chars_of("pop"));
        },
        Instr::Dup => {
            append_chars(&mut out, &chars_of("dup"));
        },
        Instr::LoadFunc(h) => {
            append_chars(&mut out, &chars_of("load_func 0x"));
            append_chars(&mut out, &hex_chars(*h, 32));
            proof {
                reveal_strlit("load_func ");
                reveal_strlit("load_func 0x");
                assert("load_func "@ + hash_display(i@->LoadFunc_0) =~= "load_func 0x"@
                    + hex_rep(i@->LoadFunc_0 as nat, 32));
            }
        },
        Instr::LoadDyn(s) => {
            append_chars(&mut out, &chars_of("load_dyn $"));
            append_chars(&mut out, &chars_of(s.as_str()));
        },
        Instr::Call => {
            append_chars(&mut out, &chars_of("call"));
        },
        Instr::CallSelf => {
            append_chars(&mut out, &chars_of("call_self"));
        },
        Instr::Return => {
            append_chars(&mut out, &chars_of("ret"));
        },
        Instr::ReturnVal => {
            append_chars(&mut out, &chars_of("ret_val"));
        },
        Instr::Jump(n) => {
            append_chars(&mut out, &chars_of("jmp L"));
            append_chars(&mut out, &dec_chars(*n as u128));
        },
        Instr::JumpT(n) => {
            append_chars(&mut out, &chars_of("jmp_t L"));
            append_chars(&mut out, &dec_chars(*n as u128));
        },
        Instr::JumpF(n) => {
            append_chars(&mut out, &chars_of("jmp_f L"));
            append_chars(&mut out, &dec_chars(*n as u128));
        },
        Instr::JumpEq(n) => {
            append_chars(&mut out, &chars_of("jmp_eq L"));
            append_chars(&mut out, &dec_chars(*n as u128));
        },
        Instr::JumpNe(n) => {
            append_chars(&mut out, &chars_of("jmp_ne L"));
            append_chars(&mut out, &dec_chars(*n as u128));
        },
        Instr::JumpGt(n) => {
            append_chars(&mut out, &chars_of("jmp_gt L"));
            append_chars(&mut out, &dec_chars(*n as u128));
        },
        Instr::JumpGe(n) => {
            append_chars(&mut out, &chars_of("jmp_ge L"));
            append_chars(&mut out, &dec_chars(*n as u128));
        },
        Instr::JumpLt(n) => {
            append_chars(&mut out, &chars_of("jmp_lt L"));
            append_chars(&mut out, &dec_chars(*n as u128));
        },
        Instr::JumpLe(n) => {
            append_chars(&mut out, &chars_of("jmp_le L"));
            append_chars(&mut out, &dec_chars(*n as u128));
        },
        Instr::BinOp(op) => {
            let text = match op {
                BinOp::Add => "add",
                BinOp::Mul => "mul",
                BinOp::Div => "div",
                BinOp::Sub => "sub",
                BinOp::Mod => "mod",
                BinOp::Shl => "shl",
                BinOp::Shr => "shr",
                BinOp::And => "and",
                BinOp::Or => "or",
                BinOp::Eq => "eq",
            };
            append_chars(&mut out, &chars_of(text));
        },
        Instr::UnaryOp(op) => {
            let text = match op {
                UnaryOp::Not => "not",
                UnaryOp::Neg => "neg",
            };
            append_chars(&mut out, &chars_of(text));
        },
        Instr::Dbg => {
            append_chars(&mut out, &chars_of("dbg"));
        },
        Instr::Nop => {
            append_chars(&mut out, &chars_of("nop"));
        },
    }
    proof {
        assert(out@ =~= instr_line(i@));
    }
    out
}

impl Bytecode {
    /// Renders each instruction as an indented line, jump targets as
    /// label names.
    pub fn format_with_labelnames(bytecode: &Bytecode) -> (r: Vec<String>)
        ensures
            r@.len() == bytecode@.len(),
            forall|k: int| 0 <= k < r@.len() ==> (#[trigger] r@[k]@) == instr_line(bytecode@[k]),
    {
        let mut out: Vec<String> = Vec::new();
        let mut k: usize = 0;
        while k < bytecode.len()
            invariant
                k <= bytecode@.len(),
                out@.len() == k,
                forall|t: int|
                    0 <= t < k ==> (#[trigger] out@[t]@) == instr_line(bytecode@[t]),
            decreases bytecode@.len() - k,
        {
            let line = render_instr_line(bytecode.index(k));
            out.push(string_from_chars(&line));
            k = k + 1;
        }
        out
    }
}

} // verus!

verus! {

/// Renders one literal value.
#[verifier::rlimit(100)]
pub fn render_lit(v: &Value) -> (r: Vec<char>)
    ensures
        r@ == lit_text(v@),
{
    match v {
        Value::I8(x) => dec_chars_signed(*x as i128),
        Value::U8(x) => dec_chars(*x as u128),
        Value::I16(x) => dec_chars_signed(*x as i128),
        Value::U16(x) => dec_chars(*x as u128),
        Value::I32(x) => dec_chars_signed(*x as i128),
        Value::U32(x) => dec_chars(*x as u128),
        Value::I64(x) => dec_chars_signed(*x as i128),
        Value::U64(x) => dec_chars(*x as u128),
        Value::I128(x) => dec_chars_signed(*x),
        Value::U128(x) => dec_chars(*x),
        Value::Isize(x) => dec_chars_signed(*x as i128),
        Value::Usize(x) => dec_chars(*x as u128),
        Value::Char(c) => {
            let mut out: Vec<char> = Vec::new();
            out.push(*c);
            proof {
                assert(out@ =~= seq![v@->Char_0]);
            }
            out
        },
        Value::Bool(b) => {
            if *b {
                chars_of("true")
            } else {
                chars_of("false")
            }
        },
        Value::Hash(h) => {
            let mut out: Vec<char> = Vec::new();
            out.push('0');
            out.push('x');
            append_chars(&mut out, &hex_chars(*h, 32));
            proof {
                assert(out@ =~= hash_display(v@->Hash_0));
            }
            out
        },
        Value::String(s) => {
            let mut out: Vec<char> = Vec::new();
            out.push('"');
            append_chars(&mut out, &chars_of(s.as_str()));
            out.push('"');
            proof {
                assert(out@ =~= seq!['"'] + v@->Str_0 + seq!['"']);
            }
            out
        },
        Value::Container(_) => chars_of("<cont_obj>"),
    }
}

/// The `.lit` lines of a pool, from entry `i` on, each ending in a
/// newline.
pub open spec fn lits_text(vs: Seq<ValV>, i: int) -> Seq<char>
    decreases vs.len() - i,
{
    if i >= vs.len() {
        Seq::empty()
    } else {
        "    .lit "@ + lit_text(vs[i]) + seq!['\n'] + lits_text(vs, i + 1)
    }
}

/// The label marker line for label id `i`.
pub open spec fn label_marker(i: int) -> Seq<char> {
    seq!['L'] + dec_rep(i as nat) + seq![':']
}

/// The instruction lines with each label's marker inserted at its
/// offset, labels processed in order of id.
pub open spec fn with_labels(lines: Seq<Seq<char>>, labels: Seq<usize>, i: int) -> Seq<Seq<char>>
    decreases labels.len() - i,
{
    if i >= labels.len() {
        lines
    } else {
        with_labels(lines.insert(labels[i] + i, label_marker(i)), labels, i + 1)
    }
}

/// True when every label offset stays within the code.
pub open spec fn labels_in_code(o: CodeObjV) -> bool {
    forall|i: int| 0 <= i < o.labels.len() ==> (#[trigger] o.labels[i]) <= o.code.len()
}

/// The instruction lines of a code object.
pub open spec fn code_lines_text(code: Seq<InstrV>) -> Seq<Seq<char>> {
    Seq::new(code.len(), |k: int| instr_line(code[k]))
}

/// The disassembly of one stored function: a hash comment, the header,
/// the literal pool, then the code with label markers.
pub open spec fn dis_fn_model(name: Seq<char>, h: u128, o: CodeObjV) -> Seq<char> {
    "# "@ + hash_display(h) + seq!['\n', '$'] + name + seq![' '] + dec_rep(o.argcount as nat)
        + seq![':', '\n'] + lits_text(o.litpool, 0) + join_nl(
        with_labels(code_lines_text(o.code), o.labels, 0),
    ) + seq!['\n']
}

/// Disassembles one stored function into assembly text. Fails when a
/// label offset lies past the end of the code.
#[verifier::rlimit(100)]
pub fn disassemble_function(name: &str, hash: &CodeHash, obj: &CodeObject) -> (r: Result<
    String,
    VmError,
>)
    ensures
        match r {
            Ok(s) => labels_in_code(obj@) && s@ == dis_fn_model(name@, *hash, obj@),
            Err(e) => e == VmError::LabelIndexOutOfBounds && !labels_in_code(obj@),
        },
{
    let mut k0: usize = 0;
    let code_len = obj.code.len();
    while k0 < obj.labels.len()
        invariant
            k0 <= obj.labels@.len(),
            code_len == obj@.code.len(),
            obj@.labels == obj.labels@,
            forall|i: int| 0 <= i < k0 ==> (#[trigger] obj@.labels[i]) <= obj@.code.len(),
        decreases obj.labels@.len() - k0,
    {
        if obj.labels[k0] > code_len {
            proof {
                assert(obj@.labels[k0 as int] > obj@.code.len());
            }
            return Err(VmError::LabelIndexOutOfBounds);
        }
        k0 = k0 + 1;
    }
    let mut out = chars_of("# ");
    out.push('0');
    out.push('x');
    append_chars(&mut out, &hex_chars(*hash, 32));
    out.push('\n');
    out.push('$');
    append_chars(&mut out, &chars_of(name));
    out.push(' ');
    append_chars(&mut out, &dec_chars(obj.argcount as u128));
    out.push(':');
    out.push('\n');
    let ghost header = out@;
    proof {
        assert(header =~= "# "@ + hash_display(*hash) + seq!['\n', '$'] + name@ + seq![' ']
            + dec_rep(obj@.argcount as nat) + seq![':', '\n']);
    }
    let mut k: usize = 0;
    while k < obj.litpool.len()
        invariant
            k <= obj.litpool@.len(),
            obj@.litpool.len() == obj.litpool@.len(),
            forall|i: int| 0 <= i < obj.litpool@.len() ==> (#[trigger] obj@.litpool[i])
                == obj.litpool@[i]@,
            out@ == header + (lits_text(obj@.litpool, 0).take(
                lits_text(obj@.litpool, 0).len() - lits_text(obj@.litpool, k as int).len(),
            )),
            lits_text(obj@.litpool, k as int).len() <= lits_text(obj@.litpool, 0).len(),
            header =~= "# "@ + hash_display(*hash) + seq!['\n', '$'] + name@ + seq![' ']
                + dec_rep(obj@.argcount as nat) + seq![':', '\n'],
        decreases obj.litpool@.len() - k,
    {
        append_chars(&mut out, &chars_of("    .lit "));
        append_chars(&mut out, &render_lit(&obj.litpool[k]));
        out.push('\n');
        proof {
            lemma_lits_text_prefix(obj@.litpool, k as int);
            assert(lits_text(obj@.litpool, k as int) =~= ("    .lit "@ + lit_text(
                obj@.litpool[k as int],
            ) + seq!['\n']) + lits_text(obj@.litpool, k as int + 1));
            assert(out@ =~= header + (lits_text(obj@.litpool, 0).take(
                lits_text(obj@.litpool, 0).len() - lits_text(obj@.litpool, k as int + 1).len(),
            )));
        }
        k = k + 1;
    }
    proof {
        assert(lits_text(obj@.litpool, obj@.litpool.len() as int) =~= Seq::<char>::empty());
        assert(out@ =~= header + lits_text(obj@.litpool, 0));
    }
    let ghost with_lits = out@;
    let mut lines: Vec<Vec<char>> = Vec::new();
    let mut t: usize = 0;
    while t < obj.code.len()
        invariant
            t <= obj@.code.len(),
            obj@.code == obj.code@,
            lines@.len() == t,
            forall|i: int| 0 <= i < t ==> (#[trigger] lines@[i]@) == instr_line(obj@.code[i]),
        decreases obj@.code.len() - t,
    {
        lines.push(render_instr_line(obj.code.index(t)));
        t = t + 1;
    }
    proof {
        assert(vv_view(lines@) =~~= code_lines_text(obj@.code));
    }
    let mut j: usize = 0;
    let nlabels = obj.labels.len();
    while j < nlabels
        invariant
            j <= nlabels,
            nlabels == obj@.labels.len(),
            obj@.labels == obj.labels@,
            forall|i: int| 0 <= i < obj@.labels.len() ==> (#[trigger] obj@.labels[i])
                <= obj@.code.len(),
            vv_view(lines@).len() == obj@.code.len() + j,
            with_labels(code_lines_text(obj@.code), obj@.labels, 0) == with_labels(
                vv_view(lines@),
                obj@.labels,
                j as int,
            ),
        decreases nlabels - j,
    {
        let pos = obj.labels[j];
        let mut marker: Vec<char> = Vec::new();
        marker.push('L');
        append_chars(&mut marker, &dec_chars(j as u128));
        marker.push(':');
        proof {
            assert(marker@ =~= label_marker(j as int));
        }
        let ghost before = vv_view(lines@);
        let ll = lines.len();
        proof {
            assert(ll == obj@.code.len() + j);
            assert(pos + j <= ll);
        }
        let at = pos + j;
        lines.insert(at, marker);
        proof {
            assert(vv_view(lines@) =~~= before.insert(
                obj@.labels[j as int] + j as int,
                label_marker(j as int),
            ));
        }
        j = j + 1;
    }
    let joined = join_rec(&lines, 0);
    proof {
        assert(vv_view(lines@).skip(0) =~= vv_view(lines@));
    }
    append_chars(&mut out, &joined);
    out.push('\n');
    proof {
        assert(out@ =~= dis_fn_model(name@, *hash, obj@));
    }
    Ok(string_from_chars(&out))
}

/// Each suffix of the pool text is a suffix of the whole pool text.
proof fn lemma_lits_text_prefix(vs: Seq<ValV>, k: int)
    requires
        0 <= k <= vs.len(),
    ensures
        lits_text(vs, k).len() <= lits_text(vs, 0).len(),
        lits_text(vs, 0).take(lits_text(vs, 0).len() - lits_text(vs, k).len()) + lits_text(
            vs,
            k,
        ) =~= lits_text(vs, 0),
    decreases k,
{
    if k == 0 {
        assert(lits_text(vs, 0).take(0) =~= Seq::<char>::empty());
    } else {
        lemma_lits_text_prefix(vs, k - 1);
        assert(lits_text(vs, k - 1) =~= ("    .lit "@ + lit_text(vs[k - 1]) + seq!['\n'])
            + lits_text(vs, k));
    }
}

} // verus!

verus! {

/// The dump of every stored function, in binding order.
pub open spec fn dis_store_model(s: crate::store::StoreV, i: int) -> Result<Seq<char>, VmError>
    decreases s.names.len() - i,
{
    if i >= s.names.len() {
        Ok(Seq::empty())
    } else {
        let name = s.names[i].0;
        let h = s.names[i].1;
        let o = crate::vm::store_obj(s, h);
        if !labels_in_code(o) {
            Err(VmError::LabelIndexOutOfBounds)
        } else {
            match dis_store_model(s, i + 1) {
                Ok(rest) => Ok(dis_fn_model(name, h, o) + rest),
                Err(e) => Err(e),
            }
        }
    }
}

/// Disassembles the bindings from `i` on.
fn dis_store_rec(db: &Store, fns: &Vec<(String, CodeHash)>, i: usize) -> (r: Result<
    Vec<char>,
    VmError,
>)
    requires
        db.wf(),
        fns@.len() == db@.names.len(),
        forall|t: int|
            0 <= t < fns@.len() ==> ((#[trigger] fns@[t]).0@, fns@[t].1) == db@.names[t],
    ensures
        match r {
            Ok(cs) => dis_store_model(db@, i as int) == Ok::<_, VmError>(cs@),
            Err(e) => dis_store_model(db@, i as int) == Err::<Seq<char>, _>(e),
        },
    decreases fns@.len() - i,
{
    if i >= fns.len() {
        let r: Vec<char> = Vec::new();
        return Ok(r);
    }
    let h = fns[i].1;
    proof {
        assert((fns@[i as int].0@, fns@[i as int].1) == db@.names[i as int]);
        assert(crate::store::has_obj(db@, h)) by {
            assert(crate::store::has_obj(db@, db@.names[i as int].1));
        }
    }
    let obj = match db.get_code_object(&h) {
        Err(_) => {
            proof {
                assert(false);
            }
            return Err(VmError::LabelIndexOutOfBounds);
        },
        Ok(o) => o,
    };
    proof {
        assert(obj@ == crate::vm::store_obj(db@, h)) by {
            let a = choose|a: int|
                0 <= a < db@.objects.len() && #[trigger] db@.objects[a] == (h, obj@);
            let b = choose|b: int|
                0 <= b < db@.objects.len() && (#[trigger] db@.objects[b]).0 == h;
            if a != b {
                assert(db@.objects[a].0 != db@.objects[b].0);
            }
        }
    }
    let text = match disassemble_function(fns[i].0.as_str(), &h, &obj) {
        Err(e) => {
            return Err(e);
        },
        Ok(s) => s,
    };
    match dis_store_rec(db, fns, i + 1) {
        Err(e) => Err(e),
        Ok(rest) => {
            let mut out = chars_of(text.as_str());
            append_chars(&mut out, &rest);
            proof {
                assert(out@ =~= dis_store_model(db@, i as int)->Ok_0);
            }
            Ok(out)
        },
    }
}

/// Dumps every function in the store as assembly text, in binding
/// order. Fails when a stored object carries a label offset past the
/// end of its code.
pub fn disassemble_store(db: &Store) -> (r: Result<String, VmError>)
    requires
        db.wf(),
    ensures
        match r {
            Ok(s) => dis_store_model(db@, 0) == Ok::<_, VmError>(s@),
            Err(e) => dis_store_model(db@, 0) == Err::<Seq<char>, _>(e),
        },
{
    let fns = db.get_functions();
    let cs = dis_store_rec(db, &fns, 0)?;
    Ok(string_from_chars(&cs))
}

} // verus!
