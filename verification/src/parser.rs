//! The assembler's parser: a line-oriented grammar with `#` comments,
//! `$name ARITY:` function headers, `.lit` literal directives, label
//! definitions and one instruction per line, each stated as a spec-level
//! model that the executable parser mirrors exactly.

use vstd::prelude::*;
use crate::bytecode::{BinOp, Bytecode, Instr, InstrV, UnaryOp};
use crate::object::{CodeObject, CodeObjV};
use crate::text::{
    all_dec_digits, chars_of, dec_rep, dec_val_of, is_space, is_space_char, string_from_chars,
};
use crate::value::{ValV, Value};
use crate::{valid_name, HashError};

verus! {

/// The views of a vector of character vectors.
pub open spec fn vv_view(v: Seq<Vec<char>>) -> Seq<Seq<char>> {
    Seq::new(
        v.len(),
        |i: int|
            if 0 <= i < v.len() {
                v[i]@
            } else {
                Seq::empty()
            },
    )
}

/// The lines of `s`, split on `'\n'`; a trailing newline yields a final
/// empty line.
pub open spec fn lines_from(s: Seq<char>, i: int) -> Seq<Seq<char>>
    decreases s.len() - i,
{
    if i >= s.len() {
        seq![Seq::empty()]
    } else if s[i] == '\n' {
        seq![Seq::<char>::empty()] + lines_from(s, i + 1)
    } else {
        let rest = lines_from(s, i + 1);
        seq![seq![s[i]] + rest[0]] + rest.skip(1)
    }
}

/// The whitespace-separated tokens of `s`, scanning from `i`.
pub open spec fn tokens_from(s: Seq<char>, i: int) -> Seq<Seq<char>>
    decreases s.len() - i,
{
    if i >= s.len() {
        Seq::empty()
    } else if is_space_char(s[i]) {
        tokens_from(s, i + 1)
    } else {
        let rest = tokens_from(s, i + 1);
        if i + 1 < s.len() && !is_space_char(s[i + 1]) {
            seq![seq![s[i]] + rest[0]] + rest.skip(1)
        } else {
            seq![seq![s[i]]] + rest
        }
    }
}

/// The index of the first non-space character at or after `i`.
pub open spec fn ltrim_idx(s: Seq<char>, i: int) -> int
    decreases s.len() - i,
{
    if i < s.len() && is_space_char(s[i]) {
        ltrim_idx(s, i + 1)
    } else {
        i
    }
}

/// The index one past the last non-space character at or before `j`.
pub open spec fn rtrim_idx(s: Seq<char>, j: int) -> int
    decreases j,
{
    if j > 0 && is_space_char(s[j - 1]) {
        rtrim_idx(s, j - 1)
    } else {
        j
    }
}

/// `s` without leading and trailing whitespace.
pub open spec fn trim_chars(s: Seq<char>) -> Seq<char> {
    let lo = ltrim_idx(s, 0);
    let hi = rtrim_idx(s, s.len() as int);
    if lo <= hi {
        s.subrange(lo, hi)
    } else {
        Seq::empty()
    }
}

/// `s` up to the first comment character: a `#` outside quotes ends the
/// line; `"` and `'` toggle the in-quotes flag.
pub open spec fn strip_from(s: Seq<char>, i: int, inside: bool) -> Seq<char>
    decreases s.len() - i,
{
    if i >= s.len() {
        Seq::empty()
    } else if s[i] == '"' || s[i] == '\'' {
        seq![s[i]] + strip_from(s, i + 1, !inside)
    } else if s[i] == '#' && !inside {
        Seq::empty()
    } else {
        seq![s[i]] + strip_from(s, i + 1, inside)
    }
}

/// The lines joined back with `'\n'`.
pub open spec fn join_nl(ls: Seq<Seq<char>>) -> Seq<char>
    decreases ls.len(),
{
    if ls.len() == 0 {
        Seq::empty()
    } else if ls.len() == 1 {
        ls[0]
    } else {
        ls[0] + seq!['\n'] + join_nl(ls.skip(1))
    }
}

/// Splits a character vector into lines.
pub fn lines_exec(v: &Vec<char>, i: usize) -> (r: Vec<Vec<char>>)
    requires
        i <= v@.len(),
    ensures
        vv_view(r@) == lines_from(v@, i as int),
    decreases v@.len() - i,
{
    if i >= v.len() {
        let mut r: Vec<Vec<char>> = Vec::new();
        r.push(Vec::new());
        proof {
            assert(vv_view(r@) =~~= lines_from(v@, i as int));
        }
        r
    } else if v[i] == '\n' {
        let mut r = lines_exec(v, i + 1);
        r.insert(0, Vec::new());
        proof {
            assert(vv_view(r@) =~~= lines_from(v@, i as int));
        }
        r
    } else {
        let mut r = lines_exec(v, i + 1);
        proof {
            assert(lines_from(v@, i as int + 1).len() > 0);
            assert(r@.len() > 0);
        }
        let mut first = r.remove(0);
        first.insert(0, v[i]);
        r.insert(0, first);
        proof {
            assert(vv_view(r@) =~~= lines_from(v@, i as int));
        }
        r
    }
}

/// Splits a character vector into whitespace-separated tokens.
pub fn tokens_exec(v: &Vec<char>, i: usize) -> (r: Vec<Vec<char>>)
    requires
        i <= v@.len(),
    ensures
        vv_view(r@) == tokens_from(v@, i as int),
    decreases v@.len() - i,
{
    if i >= v.len() {
        let r: Vec<Vec<char>> = Vec::new();
        proof {
            assert(vv_view(r@) =~~= tokens_from(v@, i as int));
        }
        r
    } else if is_space(v[i]) {
        tokens_exec(v, i + 1)
    } else {
        let mut r = tokens_exec(v, i + 1);
        if i + 1 < v.len() && !is_space(v[i + 1]) {
            proof {
                assert(tokens_from(v@, i as int + 1).len() > 0);
                assert(r@.len() > 0);
            }
            let mut first = r.remove(0);
            first.insert(0, v[i]);
            r.insert(0, first);
            proof {
                assert(vv_view(r@) =~~= tokens_from(v@, i as int));
            }
            r
        } else {
            let mut t: Vec<char> = Vec::new();
            t.push(v[i]);
            r.insert(0, t);
            proof {
                assert(t@ =~= seq![v@[i as int]]);
                assert(vv_view(r@) =~~= tokens_from(v@, i as int));
            }
            r
        }
    }
}

/// Trims whitespace off both ends.
pub fn trim_exec(v: &Vec<char>) -> (r: Vec<char>)
    ensures
        r@ == trim_chars(v@),
{
    let mut lo: usize = 0;
    while lo < v.len() && is_space(v[lo])
        invariant
            lo <= v@.len(),
            ltrim_idx(v@, 0) == ltrim_idx(v@, lo as int),
        decreases v@.len() - lo,
    {
        lo = lo + 1;
    }
    proof {
        assert(ltrim_idx(v@, lo as int) == lo as int);
    }
    let mut hi: usize = v.len();
    while hi > lo && is_space(v[hi - 1])
        invariant
            lo <= hi <= v@.len(),
            ltrim_idx(v@, 0) == lo as int,
            rtrim_idx(v@, v@.len() as int) == rtrim_idx(v@, hi as int),
        decreases hi,
    {
        hi = hi - 1;
    }
    proof {
        if hi > lo {
            assert(rtrim_idx(v@, hi as int) == hi as int);
        } else {
            assert(hi == lo);
            assert(rtrim_idx(v@, hi as int) <= hi as int) by {
                lemma_rtrim_le(v@, hi as int);
            }
            assert(rtrim_idx(v@, hi as int) >= lo as int || rtrim_idx(v@, hi as int) < lo as int);
        }
    }
    let mut out: Vec<char> = Vec::new();
    let mut k: usize = lo;
    if hi <= lo {
        proof {
            lemma_rtrim_le(v@, hi as int);
            assert(trim_chars(v@) =~= out@);
        }
        return out;
    }
    while k < hi
        invariant
            lo <= k <= hi <= v@.len(),
            out@ == v@.subrange(lo as int, k as int),
        decreases hi - k,
    {
        out.push(v[k]);
        proof {
            assert(v@.subrange(lo as int, k as int + 1) =~= v@.subrange(lo as int, k as int).push(
                v@[k as int],
            ));
        }
        k = k + 1;
    }
    proof {
        lemma_rtrim_le(v@, hi as int);
        assert(trim_chars(v@) =~= out@);
    }
    out
}

/// `rtrim_idx` never exceeds its starting point.
proof fn lemma_rtrim_le(s: Seq<char>, j: int)
    ensures
        rtrim_idx(s, j) <= j,
    decreases j,
{
    if j > 0 && is_space_char(s[j - 1]) {
        lemma_rtrim_le(s, j - 1);
    }
}

/// Strips the comment off one line.
pub fn strip_exec(v: &Vec<char>, i: usize, inside: bool) -> (r: Vec<char>)
    requires
        i <= v@.len(),
    ensures
        r@ == strip_from(v@, i as int, inside),
    decreases v@.len() - i,
{
    if i >= v.len() {
        let r: Vec<char> = Vec::new();
        proof {
            assert(r@ =~= strip_from(v@, i as int, inside));
        }
        r
    } else if v[i] == '"' || v[i] == '\'' {
        let mut r = strip_exec(v, i + 1, !inside);
        r.insert(0, v[i]);
        proof {
            assert(r@ =~= strip_from(v@, i as int, inside));
        }
        r
    } else if v[i] == '#' && !inside {
        let r: Vec<char> = Vec::new();
        proof {
            assert(r@ =~= strip_from(v@, i as int, inside));
        }
        r
    } else {
        let mut r = strip_exec(v, i + 1, inside);
        r.insert(0, v[i]);
        proof {
            assert(r@ =~= strip_from(v@, i as int, inside));
        }
        r
    }
}

} // verus!

verus! {

/// The assembler's parser.
pub struct Parser;

/// Why a piece of assembly text was rejected.
#[derive(Debug, PartialEq)]
pub enum ParseError {
    /// A second operand where none belongs.
    UnexpectedArgument,
    /// A missing operand.
    ExpectedArgument,
    /// An operand of the wrong shape.
    InvalidArg,
    /// A line that fits no form of the grammar.
    SyntaxError,
    /// An identifier breaking the name syntax.
    InvalidIdent(String),
    /// A label definition breaking the name syntax.
    InvalidLabelName(String),
    /// A malformed hash literal.
    InvalidHash,
    /// A malformed string literal.
    InvalidStrLit,
    /// A malformed `$name ARITY:` header.
    InvalidFuncDef,
    /// A malformed `.lit` directive.
    InvalidLiteral,
    /// An unknown mnemonic, or operands that do not fit it.
    UnknownInstr(String),
    /// A jump to a label that is not defined.
    UnknownLabel,
    /// A function body with no `$name ARITY:` header.
    NoFunctionDef,
}

/// The mathematical shape of a parse error.
pub enum ParseErrV {
    UnexpectedArgument,
    ExpectedArgument,
    InvalidArg,
    SyntaxError,
    InvalidIdent(Seq<char>),
    InvalidLabelName(Seq<char>),
    InvalidHash,
    InvalidStrLit,
    InvalidFuncDef,
    InvalidLiteral,
    UnknownInstr(Seq<char>),
    UnknownLabel,
    NoFunctionDef,
}

impl View for ParseError {
    type V = ParseErrV;

    open spec fn view(&self) -> ParseErrV {
        match self {
            ParseError::UnexpectedArgument => ParseErrV::UnexpectedArgument,
            ParseError::ExpectedArgument => ParseErrV::ExpectedArgument,
            ParseError::InvalidArg => ParseErrV::InvalidArg,
            ParseError::SyntaxError => ParseErrV::SyntaxError,
            ParseError::InvalidIdent(s) => ParseErrV::InvalidIdent(s@),
            ParseError::InvalidLabelName(s) => ParseErrV::InvalidLabelName(s@),
            ParseError::InvalidHash => ParseErrV::InvalidHash,
            ParseError::InvalidStrLit => ParseErrV::InvalidStrLit,
            ParseError::InvalidFuncDef => ParseErrV::InvalidFuncDef,
            ParseError::InvalidLiteral => ParseErrV::InvalidLiteral,
            ParseError::UnknownInstr(s) => ParseErrV::UnknownInstr(s@),
            ParseError::UnknownLabel => ParseErrV::UnknownLabel,
            ParseError::NoFunctionDef => ParseErrV::NoFunctionDef,
        }
    }
}

/// One parsed line of a function body.
#[derive(Debug, PartialEq)]
pub enum ParseToken {
    /// Function definition: name and arity.
    FuncDef(String, usize),
    /// An instruction.
    Instr(Instr),
    /// A label definition.
    Label(String),
    /// A literal directive.
    Lit(Value),
}

/// The mathematical shape of a parsed line.
pub enum ParseTokV {
    FuncDef(Seq<char>, usize),
    Instr(InstrV),
    Label(Seq<char>),
    Lit(ValV),
}

impl View for ParseToken {
    type V = ParseTokV;

    open spec fn view(&self) -> ParseTokV {
        match self {
            ParseToken::FuncDef(n, a) => ParseTokV::FuncDef(n@, *a),
            ParseToken::Instr(i) => ParseTokV::Instr(i@),
            ParseToken::Label(s) => ParseTokV::Label(s@),
            ParseToken::Lit(v) => ParseTokV::Lit(v@),
        }
    }
}

/// A parsed function: its source-level name and its code object.
#[derive(Debug)]
pub struct Parse {
    /// The name the function was defined under.
    pub func_name: String,
    /// The assembled code object.
    pub code_obj: CodeObject,
}

/// True when the line has the `$name ARITY:` shape: two tokens, the
/// first starting with `$`, the second ending with `:`.
pub open spec fn fd_shape(l: Seq<char>) -> bool {
    let ts = tokens_from(l, 0);
    &&& ts.len() == 2
    &&& ts[0].len() > 0
    &&& ts[1].len() > 0
    &&& ts[0][0] == '$'
    &&& ts[1].last() == ':'
}

/// True when the arity token (without its `:`) is a decimal numeral that
/// fits a `usize`.
pub open spec fn fd_arity_ok(t1: Seq<char>) -> bool {
    let a = t1.drop_last();
    a.len() > 0 && all_dec_digits(a) && dec_val_of(a) <= usize::MAX
}

/// The function name a header declares.
pub open spec fn fd_name(l: Seq<char>) -> Seq<char> {
    tokens_from(l, 0)[0].skip(1)
}

/// The arity a header declares.
pub open spec fn fd_arity(l: Seq<char>) -> usize {
    dec_val_of(tokens_from(l, 0)[1].drop_last()) as usize
}

/// True when the line is a well-formed function header.
pub open spec fn fd_valid(l: Seq<char>) -> bool {
    fd_shape(l) && valid_name(fd_name(l)) && fd_arity_ok(tokens_from(l, 0)[1])
}

impl Parser {
    /// Recognizes a `$name ARITY:` function header. `None` when the line
    /// has a different shape; an error when it has the shape but a bad
    /// name or arity.
    pub fn is_func_def(line: &str) -> (r: Option<Result<(String, usize), ParseError>>)
        ensures
            match r {
                None => !fd_shape(line@),
                Some(Ok((n, a))) => fd_valid(line@) && n@ == fd_name(line@) && a == fd_arity(
                    line@,
                ),
                Some(Err(e)) => fd_shape(line@) && !fd_valid(line@) && e@
                    == ParseErrV::InvalidFuncDef,
            },
    {
        let cs = chars_of(line);
        let mut ts = tokens_exec(&cs, 0);
        if ts.len() != 2 {
            proof {
                assert(tokens_from(line@, 0).len() != 2);
            }
            return None;
        }
        let t1 = ts.pop().unwrap();
        let t0 = ts.pop().unwrap();
        proof {
            assert(t0@ == tokens_from(line@, 0)[0]);
            assert(t1@ == tokens_from(line@, 0)[1]);
        }
        if t0.len() == 0 || t1.len() == 0 || t0[0] != '$' || t1[t1.len() - 1] != ':' {
            return None;
        }
        let name_chars = crate::text::sub_chars(&t0, 1, t0.len());
        proof {
            assert(name_chars@ =~= t0@.skip(1));
        }
        let name = string_from_chars(&name_chars);
        let arity_chars = crate::text::sub_chars(&t1, 0, t1.len() - 1);
        proof {
            assert(arity_chars@ =~= t1@.drop_last());
        }
        let name_ok = crate::is_valid_name(name.as_str());
        let arity = crate::text::parse_dec_u128(&arity_chars);
        match arity {
            Some(a) if a <= usize::MAX as u128 && name_ok => Some(Ok((name, a as usize))),
            _ => {
                proof {
                    if name_ok {
                        match arity {
                            Some(a) => {
                                assert(dec_val_of(t1@.drop_last()) > usize::MAX);
                            },
                            None => {},
                        }
                    }
                }
                Some(Err(ParseError::InvalidFuncDef))
            },
        }
    }
}

} // verus!

verus! {

/// The views of a vector of name/number pairs.
pub open spec fn pairs_view(v: Seq<(String, usize)>) -> Seq<(Seq<char>, usize)> {
    Seq::new(
        v.len(),
        |i: int|
            if 0 <= i < v.len() {
                (v[i].0@, v[i].1)
            } else {
                (Seq::empty(), 0usize)
            },
    )
}

/// The views of a vector of values.
pub open spec fn vals_view(v: Seq<Value>) -> Seq<ValV> {
    Seq::new(
        v.len(),
        |i: int|
            if 0 <= i < v.len() {
                v[i]@
            } else {
                ValV::Bool(false)
            },
    )
}

/// The views of a vector of parse tokens.
pub open spec fn toks_view(v: Seq<ParseToken>) -> Seq<ParseTokV> {
    Seq::new(
        v.len(),
        |i: int|
            if 0 <= i < v.len() {
                v[i]@
            } else {
                ParseTokV::Label(Seq::empty())
            },
    )
}

/// True when the line is a label definition: one token ending in `:`.
pub open spec fn label_shape(l: Seq<char>) -> bool {
    let ts = tokens_from(l, 0);
    ts.len() == 1 && ts[0].len() > 0 && ts[0].last() == ':'
}

/// The name a label line defines.
pub open spec fn label_text(l: Seq<char>) -> Seq<char> {
    tokens_from(l, 0)[0].drop_last()
}

/// The labels of a function body, with their bytecode offsets: line `i`
/// among the non-literal lines, with `j` labels seen before it, defines
/// an offset of `i - j - 1` (the header line accounts for the 1).
pub open spec fn labels_model(ls: Seq<Seq<char>>, i: int, j: int) -> Result<
    Seq<(Seq<char>, usize)>,
    ParseErrV,
>
    decreases ls.len() - i,
{
    if i >= ls.len() {
        Ok(Seq::empty())
    } else if label_shape(ls[i]) {
        if !valid_name(label_text(ls[i])) {
            Err(ParseErrV::InvalidLabelName(label_text(ls[i])))
        } else if i - j - 1 < 0 {
            Err(ParseErrV::SyntaxError)
        } else {
            match labels_model(ls, i + 1, j + 1) {
                Ok(rest) => Ok(seq![(label_text(ls[i]), (i - j - 1) as usize)] + rest),
                Err(e) => Err(e),
            }
        }
    } else {
        labels_model(ls, i + 1, j)
    }
}

/// Collects label definitions from line `i` on, `j` labels already seen.
fn labels_rec(ls: &Vec<Vec<char>>, i: usize, j: usize) -> (r: Result<
    Vec<(String, usize)>,
    ParseError,
>)
    requires
        j <= i,
    ensures
        match r {
            Ok(ps) => labels_model(vv_view(ls@), i as int, j as int) == Ok::<_, ParseErrV>(
                pairs_view(ps@),
            ),
            Err(e) => labels_model(vv_view(ls@), i as int, j as int) == Err::<
                Seq<(Seq<char>, usize)>,
                _,
            >(e@),
        },
    decreases ls@.len() - i,
{
    if i >= ls.len() {
        let r: Vec<(String, usize)> = Vec::new();
        proof {
            assert(pairs_view(r@) =~= Seq::<(Seq<char>, usize)>::empty());
        }
        return Ok(r);
    }
    let line = &ls[i];
    let mut ts = tokens_exec(line, 0);
    proof {
        assert(vv_view(ls@)[i as int] == line@);
    }
    if ts.len() == 1 {
        let t0 = ts.pop().unwrap();
        proof {
            assert(t0@ == tokens_from(line@, 0)[0]);
        }
        if t0.len() > 0 && t0[t0.len() - 1] == ':' {
            proof {
                assert(label_shape(vv_view(ls@)[i as int]));
            }
            let name_chars = crate::text::sub_chars(&t0, 0, t0.len() - 1);
            proof {
                assert(name_chars@ =~= t0@.drop_last());
            }
            let name = string_from_chars(&name_chars);
            if !crate::is_valid_name(name.as_str()) {
                return Err(ParseError::InvalidLabelName(name));
            }
            if i < j + 1 {
                return Err(ParseError::SyntaxError);
            }
            let off: usize = i - j - 1;
            match labels_rec(ls, i + 1, j + 1) {
                Err(e) => Err(e),
                Ok(mut rest) => {
                    rest.insert(0, (name, off));
                    proof {
                        assert(pairs_view(rest@) =~~= labels_model(
                            vv_view(ls@),
                            i as int,
                            j as int,
                        )->Ok_0);
                    }
                    Ok(rest)
                },
            }
        } else {
            proof {
                assert(!label_shape(vv_view(ls@)[i as int]));
            }
            labels_rec(ls, i + 1, j)
        }
    } else {
        proof {
            assert(tokens_from(line@, 0).len() != 1);
            assert(!label_shape(vv_view(ls@)[i as int]));
        }
        labels_rec(ls, i + 1, j)
    }
}

impl Parser {
    /// Collects a body's labels: a map from label name to label id (the
    /// id is the order of definition) and the offset table indexed by id.
    pub fn get_labels(function: &str) -> (r: Result<
        (Vec<(String, usize)>, Vec<usize>),
        ParseError,
    >)
        ensures
            match r {
                Ok((names, offsets)) => {
                    &&& labels_model(lines_from(function@, 0), 0, 0) is Ok
                    &&& {
                        let ps = labels_model(lines_from(function@, 0), 0, 0)->Ok_0;
                        &&& names@.len() == ps.len()
                        &&& offsets@.len() == ps.len()
                        &&& forall|k: int|
                            0 <= k < ps.len() ==> (#[trigger] names@[k].0@) == ps[k].0
                                && names@[k].1 == k && offsets@[k] == ps[k].1
                    }
                },
                Err(e) => labels_model(lines_from(function@, 0), 0, 0) == Err::<
                    Seq<(Seq<char>, usize)>,
                    _,
                >(e@),
            },
    {
        let cs = chars_of(function);
        let lines = lines_exec(&cs, 0);
        let mut pairs = match labels_rec(&lines, 0, 0) {
            Err(e) => {
                return Err(e);
            },
            Ok(ps) => ps,
        };
        let ghost psv = pairs_view(pairs@);
        let mut names: Vec<(String, usize)> = Vec::new();
        let mut offsets: Vec<usize> = Vec::new();
        let mut k: usize = 0;
        let n = pairs.len();
        while k < n
            invariant
                k <= n,
                n == psv.len(),
                pairs@.len() == n - k,
                forall|t: int|
                    0 <= t < pairs@.len() ==> (#[trigger] pairs_view(pairs@)[t]) == psv[t
                        + k],
                names@.len() == k,
                offsets@.len() == k,
                forall|t: int|
                    0 <= t < k ==> (#[trigger] names@[t].0@) == psv[t].0 && names@[t].1 == t
                        && offsets@[t] == psv[t].1,
            decreases n - k,
        {
            let ghost prev = pairs@;
            let (s, off) = pairs.remove(0);
            proof {
                assert(pairs_view(prev)[0] == psv[k as int]);
                assert(s@ == psv[k as int].0 && off == psv[k as int].1);
                assert(forall|t: int| 0 <= t < pairs@.len() ==> #[trigger] pairs@[t] == prev[t + 1]);
                assert(forall|t: int|
                    0 <= t < pairs@.len() ==> (#[trigger] pairs_view(pairs@)[t]) == pairs_view(
                        prev,
                    )[t + 1]);
            }
            names.push((s, k));
            offsets.push(off);
            k = k + 1;
        }
        Ok((names, offsets))
    }
}

} // verus!

verus! {

/// True when the line is a literal directive: it starts with `.`.
pub open spec fn lit_line(l: Seq<char>) -> bool {
    l.len() > 0 && l[0] == '.'
}

/// The index of the first `"` at or after `i`, or the length.
pub open spec fn find_quote(s: Seq<char>, i: int) -> int
    decreases s.len() - i,
{
    if i >= s.len() {
        s.len() as int
    } else if s[i] == '"' {
        i
    } else {
        find_quote(s, i + 1)
    }
}

/// True when `a` is a decimal literal (optionally negated) that fits a
/// 32-bit signed integer.
pub open spec fn int_lit_ok(a: Seq<char>) -> bool {
    if a.len() > 0 && a[0] == '-' {
        let d = a.skip(1);
        d.len() > 0 && all_dec_digits(d) && dec_val_of(d) <= 0x80000000
    } else {
        a.len() > 0 && all_dec_digits(a) && dec_val_of(a) <= 0x7fffffff
    }
}

/// The value of a decimal literal.
pub open spec fn int_lit_val(a: Seq<char>) -> int {
    if a.len() > 0 && a[0] == '-' {
        -dec_val_of(a.skip(1))
    } else {
        dec_val_of(a)
    }
}

/// True when `a` is a hash literal: `0x` and 32 hexadecimal digits.
pub open spec fn hash_lit_ok(a: Seq<char>) -> bool {
    &&& a.len() == 34
    &&& a[0] == '0' && a[1] == 'x'
    &&& forall|i: int| 2 <= i < 34 ==> crate::text::hex_digit_val(#[trigger] a[i]) >= 0
}

/// The value of a hash literal.
pub open spec fn hash_lit_val(a: Seq<char>) -> u128 {
    crate::hashing::bytes_be_val(crate::hashing::hex_bytes_of(a.skip(2))) as u128
}

/// The value a `.lit` line denotes: `true`/`false`, a quoted string (the
/// line must hold exactly two quotes), a hash, or a 32-bit integer.
pub open spec fn lit_val_model(l: Seq<char>) -> Result<ValV, ParseErrV> {
    let ts = tokens_from(l, 0);
    if ts.len() < 2 {
        Err(ParseErrV::ExpectedArgument)
    } else if ts[0] != ".lit"@ {
        Err(ParseErrV::InvalidLiteral)
    } else {
        let arg = ts[1];
        if arg == "true"@ {
            Ok(ValV::Bool(true))
        } else if arg == "false"@ {
            Ok(ValV::Bool(false))
        } else if arg.len() > 0 && arg[0] == '"' {
            let q1 = find_quote(l, 0);
            let q2 = find_quote(l, q1 + 1);
            if q2 < l.len() && find_quote(l, q2 + 1) == l.len() {
                Ok(ValV::Str(l.subrange(q1 + 1, q2)))
            } else {
                Err(ParseErrV::InvalidStrLit)
            }
        } else if arg.len() >= 2 && arg[0] == '0' && arg[1] == 'x' {
            if hash_lit_ok(arg) {
                Ok(ValV::Hash(hash_lit_val(arg)))
            } else {
                Err(ParseErrV::InvalidHash)
            }
        } else if int_lit_ok(arg) {
            Ok(ValV::I32(int_lit_val(arg) as i32))
        } else {
            Err(ParseErrV::InvalidLiteral)
        }
    }
}

/// The literal pool a body's `.lit` lines declare, in order.
pub open spec fn lits_model(ls: Seq<Seq<char>>, i: int) -> Result<Seq<ValV>, ParseErrV>
    decreases ls.len() - i,
{
    if i >= ls.len() {
        Ok(Seq::empty())
    } else if lit_line(ls[i]) {
        match lit_val_model(ls[i]) {
            Err(e) => Err(e),
            Ok(v) => match lits_model(ls, i + 1) {
                Ok(rest) => Ok(seq![v] + rest),
                Err(e) => Err(e),
            },
        }
    } else {
        lits_model(ls, i + 1)
    }
}

/// Finds the first quote character at or after `i`.
fn find_quote_exec(v: &Vec<char>, i: usize) -> (r: usize)
    requires
        i <= v@.len(),
    ensures
        r == find_quote(v@, i as int),
        i <= r <= v@.len(),
    decreases v@.len() - i,
{
    if i >= v.len() {
        v.len()
    } else if v[i] == '"' {
        i
    } else {
        find_quote_exec(v, i + 1)
    }
}

/// Parses the value of one `.lit` line.
#[verifier::rlimit(100)]
fn lit_val_exec(l: &Vec<char>) -> (r: Result<Value, ParseError>)
    ensures
        match r {
            Ok(v) => lit_val_model(l@) == Ok::<_, ParseErrV>(v@),
            Err(e) => lit_val_model(l@) == Err::<ValV, _>(e@),
        },
{
    let mut ts = tokens_exec(l, 0);
    if ts.len() < 2 {
        return Err(ParseError::ExpectedArgument);
    }
    let arg = ts.remove(1);
    let t0 = ts.remove(0);
    proof {
        assert(t0@ == tokens_from(l@, 0)[0]);
        assert(arg@ == tokens_from(l@, 0)[1]);
    }
    if !crate::text::chars_eq_str(&t0, ".lit") {
        return Err(ParseError::InvalidLiteral);
    }
    if crate::text::chars_eq_str(&arg, "true") {
        return Ok(Value::Bool(true));
    }
    if crate::text::chars_eq_str(&arg, "false") {
        return Ok(Value::Bool(false));
    }
    if arg.len() > 0 && arg[0] == '"' {
        let q1 = find_quote_exec(l, 0);
        let q2 = if q1 < l.len() {
            find_quote_exec(l, q1 + 1)
        } else {
            l.len()
        };
        proof {
            if q1 >= l@.len() {
                assert(find_quote(l@, q1 as int + 1) == l@.len());
            }
        }
        if q2 < l.len() {
            let q3 = find_quote_exec(l, q2 + 1);
            if q3 == l.len() {
                let content = crate::text::sub_chars(l, q1 + 1, q2);
                return Ok(Value::String(string_from_chars(&content)));
            }
        }
        return Err(ParseError::InvalidStrLit);
    }
    if arg.len() >= 2 && arg[0] == '0' && arg[1] == 'x' {
        let s = string_from_chars(&arg);
        match crate::hash_from_str(s.as_str()) {
            Ok(h) => {
                proof {
                    assert(hash_lit_ok(arg@));
                }
                return Ok(Value::Hash(h));
            },
            Err(_) => {
                proof {
                    assert(!hash_lit_ok(arg@));
                }
                return Err(ParseError::InvalidHash);
            },
        }
    }
    if arg.len() == 0 {
        return Err(ParseError::InvalidLiteral);
    }
    if arg[0] == '-' {
        let digits = crate::text::sub_chars(&arg, 1, arg.len());
        proof {
            assert(digits@ =~= arg@.skip(1));
        }
        match crate::text::parse_dec_u128(&digits) {
            Some(m) if m <= 0x80000000u128 => {
                let val: i32 = if m == 0x80000000u128 {
                    i32::MIN
                } else {
                    -((m as u32) as i32)
                };
                proof {
                    assert(val == int_lit_val(arg@));
                }
                return Ok(Value::I32(val));
            },
            _ => {
                return Err(ParseError::InvalidLiteral);
            },
        }
    }
    match crate::text::parse_dec_u128(&arg) {
        Some(m) if m <= 0x7fffffffu128 => Ok(Value::I32(m as i32)),
        _ => Err(ParseError::InvalidLiteral),
    }
}

/// Collects the `.lit` lines' values from line `i` on.
fn lits_rec(ls: &Vec<Vec<char>>, i: usize) -> (r: Result<Vec<Value>, ParseError>)
    ensures
        match r {
            Ok(vs) => lits_model(vv_view(ls@), i as int) == Ok::<_, ParseErrV>(vals_view(vs@)),
            Err(e) => lits_model(vv_view(ls@), i as int) == Err::<Seq<ValV>, _>(e@),
        },
    decreases ls@.len() - i,
{
    if i >= ls.len() {
        let r: Vec<Value> = Vec::new();
        proof {
            assert(vals_view(r@) =~= Seq::<ValV>::empty());
        }
        return Ok(r);
    }
    let line = &ls[i];
    proof {
        assert(vv_view(ls@)[i as int] == line@);
    }
    if line.len() > 0 && line[0] == '.' {
        match lit_val_exec(line) {
            Err(e) => Err(e),
            Ok(v) => match lits_rec(ls, i + 1) {
                Err(e) => Err(e),
                Ok(mut rest) => {
                    rest.insert(0, v);
                    proof {
                        assert(vals_view(rest@) =~~= lits_model(vv_view(ls@), i as int)->Ok_0);
                    }
                    Ok(rest)
                },
            },
        }
    } else {
        lits_rec(ls, i + 1)
    }
}

impl Parser {
    /// Collects the literal pool a body declares.
    pub fn get_literals(function: &str) -> (r: Result<Vec<Value>, ParseError>)
        ensures
            match r {
                Ok(vs) => lits_model(lines_from(function@, 0), 0) == Ok::<_, ParseErrV>(
                    vals_view(vs@),
                ),
                Err(e) => lits_model(lines_from(function@, 0), 0) == Err::<Seq<ValV>, _>(e@),
            },
    {
        let cs = chars_of(function);
        let lines = lines_exec(&cs, 0);
        lits_rec(&lines, 0)
    }

    /// The number of locals a body uses: one past the largest local
    /// index any `load_loc` or `store_loc` names.
    pub fn get_num_locals(tokens: &[ParseToken]) -> (r: Result<usize, ParseError>)
        ensures
            match r {
                Ok(n) => n == max_locals(toks_view(tokens@), 0),
                Err(e) => e@ == ParseErrV::SyntaxError && max_locals(toks_view(tokens@), 0)
                    > usize::MAX,
            },
    {
        num_locals_rec(tokens, 0)
    }
}

/// One past the largest local index used from token `i` on.
pub open spec fn max_locals(ts: Seq<ParseTokV>, i: int) -> int
    decreases ts.len() - i,
{
    if i >= ts.len() {
        0
    } else {
        let rest = max_locals(ts, i + 1);
        let cur: int = match ts[i] {
            ParseTokV::Instr(InstrV::LoadLocal(n)) => n + 1,
            ParseTokV::Instr(InstrV::StoreLocal(n)) => n + 1,
            _ => 0,
        };
        if cur >= rest {
            cur
        } else {
            rest
        }
    }
}

/// Computes [`max_locals`] from token `i` on.
fn num_locals_rec(tokens: &[ParseToken], i: usize) -> (r: Result<usize, ParseError>)
    ensures
        match r {
            Ok(n) => n == max_locals(toks_view(tokens@), i as int),
            Err(e) => e@ == ParseErrV::SyntaxError && max_locals(toks_view(tokens@), i as int)
                > usize::MAX,
        },
    decreases tokens@.len() - i,
{
    if i >= tokens.len() {
        return Ok(0);
    }
    let rest = match num_locals_rec(tokens, i + 1) {
        Err(e) => {
            return Err(e);
        },
        Ok(n) => n,
    };
    let cur: usize = match &tokens[i] {
        ParseToken::Instr(Instr::LoadLocal(n)) => {
            if *n == usize::MAX {
                return Err(ParseError::SyntaxError);
            }
            *n + 1
        },
        ParseToken::Instr(Instr::StoreLocal(n)) => {
            if *n == usize::MAX {
                return Err(ParseError::SyntaxError);
            }
            *n + 1
        },
        _ => 0,
    };
    if cur >= rest {
        Ok(cur)
    } else {
        Ok(rest)
    }
}

} // verus!

verus! {

/// The label id bound to `n`, scanning the map in order.
pub open spec fn lookup_label(ls: Seq<(Seq<char>, usize)>, n: Seq<char>) -> Option<usize>
    decreases ls.len(),
{
    if ls.len() == 0 {
        None
    } else if ls[0].0 == n {
        Some(ls[0].1)
    } else {
        lookup_label(ls.skip(1), n)
    }
}

/// Looks a label name up in the name-to-id map.
fn lookup_label_exec(labels: &Vec<(String, usize)>, n: &Vec<char>) -> (r: Option<usize>)
    ensures
        r == lookup_label(pairs_view(labels@), n@),
{
    let mut k: usize = 0;
    proof {
        assert(pairs_view(labels@).skip(0) =~= pairs_view(labels@));
    }
    while k < labels.len()
        invariant
            k <= labels@.len(),
            lookup_label(pairs_view(labels@), n@) == lookup_label(
                pairs_view(labels@).skip(k as int),
                n@,
            ),
        decreases labels@.len() - k,
    {
        proof {
            assert(pairs_view(labels@).skip(k as int)[0] == pairs_view(labels@)[k as int]);
            assert(pairs_view(labels@).skip(k as int).skip(1) =~= pairs_view(labels@).skip(
                k as int + 1,
            ));
        }
        if crate::text::str_eq(labels[k].0.as_str(), string_from_chars(n).as_str()) {
            return Some(labels[k].1);
        }
        k = k + 1;
    }
    proof {
        assert(pairs_view(labels@).skip(labels@.len() as int) =~= Seq::<
            (Seq<char>, usize),
        >::empty());
    }
    None
}

/// The jump instruction a mnemonic and a label id denote.
pub open spec fn jump_of(op: Seq<char>, id: usize) -> Option<InstrV> {
    if op == "jmp"@ {
        Some(InstrV::Jump(id))
    } else if op == "jmp_t"@ {
        Some(InstrV::JumpT(id))
    } else if op == "jmp_f"@ {
        Some(InstrV::JumpF(id))
    } else if op == "jmp_eq"@ {
        Some(InstrV::JumpEq(id))
    } else if op == "jmp_ne"@ {
        Some(InstrV::JumpNe(id))
    } else if op == "jmp_gt"@ {
        Some(InstrV::JumpGt(id))
    } else if op == "jmp_ge"@ {
        Some(InstrV::JumpGe(id))
    } else if op == "jmp_lt"@ {
        Some(InstrV::JumpLt(id))
    } else if op == "jmp_le"@ {
        Some(InstrV::JumpLe(id))
    } else {
        None
    }
}

impl Parser {
    /// Decodes a jump mnemonic against the label map.
    pub fn get_jump_instr(op: &str, label_names: &Vec<(String, usize)>, arg: &str) -> (r: Result<
        Instr,
        ParseError,
    >)
        ensures
            match r {
                Ok(i) => lookup_label(pairs_view(label_names@), arg@) matches Some(id)
                    && jump_of(op@, id) == Some(i@),
                Err(e) => match e@ {
                    ParseErrV::UnknownLabel => lookup_label(pairs_view(label_names@), arg@)
                        is None,
                    ParseErrV::UnknownInstr(s) => s == op@ && lookup_label(
                        pairs_view(label_names@),
                        arg@,
                    ) is Some && jump_of(op@, lookup_label(
                        pairs_view(label_names@),
                        arg@,
                    )->Some_0) is None,
                    _ => false,
                },
            },
    {
        let argc = chars_of(arg);
        let id = match lookup_label_exec(label_names, &argc) {
            None => {
                return Err(ParseError::UnknownLabel);
            },
            Some(id) => id,
        };
        if crate::text::str_eq(op, "jmp") {
            Ok(Instr::Jump(id))
        } else if crate::text::str_eq(op, "jmp_t") {
            Ok(Instr::JumpT(id))
        } else if crate::text::str_eq(op, "jmp_f") {
            Ok(Instr::JumpF(id))
        } else if crate::text::str_eq(op, "jmp_eq") {
            Ok(Instr::JumpEq(id))
        } else if crate::text::str_eq(op, "jmp_ne") {
            Ok(Instr::JumpNe(id))
        } else if crate::text::str_eq(op, "jmp_gt") {
            Ok(Instr::JumpGt(id))
        } else if crate::text::str_eq(op, "jmp_ge") {
            Ok(Instr::JumpGe(id))
        } else if crate::text::str_eq(op, "jmp_lt") {
            Ok(Instr::JumpLt(id))
        } else if crate::text::str_eq(op, "jmp_le") {
            Ok(Instr::JumpLe(id))
        } else {
            Err(ParseError::UnknownInstr(op.to_owned()))
        }
    }
}

/// True when `a` is a decimal numeral fitting a `usize`.
pub open spec fn usize_arg_ok(a: Seq<char>) -> bool {
    a.len() > 0 && all_dec_digits(a) && dec_val_of(a) <= usize::MAX
}

/// The parse of one non-literal line of a body: a header, a label
/// definition, or an instruction with zero or one operand.
pub open spec fn line_model(l: Seq<char>, labels: Seq<(Seq<char>, usize)>) -> Result<
    ParseTokV,
    ParseErrV,
> {
    let ts = tokens_from(l, 0);
    if ts.len() == 0 {
        Err(ParseErrV::SyntaxError)
    } else if ts.len() > 2 {
        Err(ParseErrV::UnexpectedArgument)
    } else if fd_shape(l) {
        if fd_valid(l) {
            Ok(ParseTokV::FuncDef(fd_name(l), fd_arity(l)))
        } else {
            Err(ParseErrV::InvalidFuncDef)
        }
    } else if ts.len() == 1 && ts[0].len() > 0 && ts[0].last() == ':' {
        Ok(ParseTokV::Label(ts[0].drop_last()))
    } else if ts.len() == 1 {
        let base = ts[0];
        if base == "pop"@ {
            Ok(ParseTokV::Instr(InstrV::Pop))
        } else if base == "dup"@ {
            Ok(ParseTokV::Instr(InstrV::Dup))
        } else if base == "call"@ {
            Ok(ParseTokV::Instr(InstrV::Call))
        } else if base == "call_self"@ {
            Ok(ParseTokV::Instr(InstrV::CallSelf))
        } else if base == "ret"@ {
            Ok(ParseTokV::Instr(InstrV::Return))
        } else if base == "ret_val"@ {
            Ok(ParseTokV::Instr(InstrV::ReturnVal))
        } else if base == "add"@ {
            Ok(ParseTokV::Instr(InstrV::BinOp(BinOp::Add)))
        } else if base == "mul"@ {
            Ok(ParseTokV::Instr(InstrV::BinOp(BinOp::Mul)))
        } else if base == "div"@ {
            Ok(ParseTokV::Instr(InstrV::BinOp(BinOp::Div)))
        } else if base == "sub"@ {
            Ok(ParseTokV::Instr(InstrV::BinOp(BinOp::Sub)))
        } else if base == "mod"@ {
            Ok(ParseTokV::Instr(InstrV::BinOp(BinOp::Mod)))
        } else if base == "shl"@ {
            Ok(ParseTokV::Instr(InstrV::BinOp(BinOp::Shl)))
        } else if base == "shr"@ {
            Ok(ParseTokV::Instr(InstrV::BinOp(BinOp::Shr)))
        } else if base == "and"@ {
            Ok(ParseTokV::Instr(InstrV::BinOp(BinOp::And)))
        } else if base == "or"@ {
            Ok(ParseTokV::Instr(InstrV::BinOp(BinOp::Or)))
        } else if base == "eq"@ {
            Ok(ParseTokV::Instr(InstrV::BinOp(BinOp::Eq)))
        } else if base == "not"@ {
            Ok(ParseTokV::Instr(InstrV::UnaryOp(UnaryOp::Not)))
        } else if base == "neg"@ {
            Ok(ParseTokV::Instr(InstrV::UnaryOp(UnaryOp::Neg)))
        } else if base == "nop"@ {
            Ok(ParseTokV::Instr(InstrV::Nop))
        } else if base == "dbg"@ {
            Ok(ParseTokV::Instr(InstrV::Dbg))
        } else {
            Err(ParseErrV::UnknownInstr(l))
        }
    } else {
        let base = ts[0];
        let arg = ts[1];
        if usize_arg_ok(arg) {
            let n = dec_val_of(arg) as usize;
            if base == "load_arg"@ {
                Ok(ParseTokV::Instr(InstrV::LoadArg(n)))
            } else if base == "load_loc"@ {
                Ok(ParseTokV::Instr(InstrV::LoadLocal(n)))
            } else if base == "load_lit"@ {
                Ok(ParseTokV::Instr(InstrV::LoadLit(n)))
            } else if base == "store_loc"@ {
                Ok(ParseTokV::Instr(InstrV::StoreLocal(n)))
            } else {
                Err(ParseErrV::UnknownInstr(l))
            }
        } else if base == "load_func"@ {
            if hash_lit_ok(arg) {
                Ok(ParseTokV::Instr(InstrV::LoadFunc(hash_lit_val(arg))))
            } else {
                Err(ParseErrV::InvalidHash)
            }
        } else if base == "load_dyn"@ {
            if arg.len() > 0 && arg[0] == '$' && valid_name(arg.skip(1)) {
                Ok(ParseTokV::Instr(InstrV::LoadDyn(arg.skip(1))))
            } else {
                Err(ParseErrV::InvalidIdent(arg))
            }
        } else if jump_of(base, 0) is Some {
            match lookup_label(labels, arg) {
                None => Err(ParseErrV::UnknownLabel),
                Some(id) => Ok(ParseTokV::Instr(jump_of(base, id)->Some_0)),
            }
        } else {
            Err(ParseErrV::UnknownInstr(l))
        }
    }
}

} // verus!

verus! {

/// Decodes one non-literal line into a token.
#[verifier::rlimit(100)]
fn decode_line(l: &Vec<char>, labels: &Vec<(String, usize)>) -> (r: Result<
    ParseToken,
    ParseError,
>)
    ensures
        match r {
            Ok(t) => line_model(l@, pairs_view(labels@)) == Ok::<_, ParseErrV>(t@),
            Err(e) => line_model(l@, pairs_view(labels@)) == Err::<ParseTokV, _>(e@),
        },
{
    let line_string = string_from_chars(l);
    let mut ts = tokens_exec(l, 0);
    if ts.len() == 0 {
        return Err(ParseError::SyntaxError);
    }
    if ts.len() > 2 {
        return Err(ParseError::UnexpectedArgument);
    }
    match Parser::is_func_def(line_string.as_str()) {
        Some(Ok((n, a))) => {
            return Ok(ParseToken::FuncDef(n, a));
        },
        Some(Err(e)) => {
            return Err(e);
        },
        None => {},
    }
    if ts.len() == 1 {
        let base = ts.pop().unwrap();
        proof {
            assert(base@ == tokens_from(l@, 0)[0]);
        }
        if base.len() > 0 && base[base.len() - 1] == ':' {
            let name_chars = crate::text::sub_chars(&base, 0, base.len() - 1);
            proof {
                assert(name_chars@ =~= base@.drop_last());
            }
            return Ok(ParseToken::Label(string_from_chars(&name_chars)));
        }
        if crate::text::chars_eq_str(&base, "pop") {
            return Ok(ParseToken::Instr(Instr::Pop));
        }
        if crate::text::chars_eq_str(&base, "dup") {
            return Ok(ParseToken::Instr(Instr::Dup));
        }
        if crate::text::chars_eq_str(&base, "call") {
            return Ok(ParseToken::Instr(Instr::Call));
        }
        if crate::text::chars_eq_str(&base, "call_self") {
            return Ok(ParseToken::Instr(Instr::CallSelf));
        }
        if crate::text::chars_eq_str(&base, "ret") {
            return Ok(ParseToken::Instr(Instr::Return));
        }
        if crate::text::chars_eq_str(&base, "ret_val") {
            return Ok(ParseToken::Instr(Instr::ReturnVal));
        }
        if crate::text::chars_eq_str(&base, "add") {
            return Ok(ParseToken::Instr(Instr::BinOp(BinOp::Add)));
        }
        if crate::text::chars_eq_str(&base, "mul") {
            return Ok(ParseToken::Instr(Instr::BinOp(BinOp::Mul)));
        }
        if crate::text::chars_eq_str(&base, "div") {
            return Ok(ParseToken::Instr(Instr::BinOp(BinOp::Div)));
        }
        if crate::text::chars_eq_str(&base, "sub") {
            return Ok(ParseToken::Instr(Instr::BinOp(BinOp::Sub)));
        }
        if crate::text::chars_eq_str(&base, "mod") {
            return Ok(ParseToken::Instr(Instr::BinOp(BinOp::Mod)));
        }
        if crate::text::chars_eq_str(&base, "shl") {
            return Ok(ParseToken::Instr(Instr::BinOp(BinOp::Shl)));
        }
        if crate::text::chars_eq_str(&base, "shr") {
            return Ok(ParseToken::Instr(Instr::BinOp(BinOp::Shr)));
        }
        if crate::text::chars_eq_str(&base, "and") {
            return Ok(ParseToken::Instr(Instr::BinOp(BinOp::And)));
        }
        if crate::text::chars_eq_str(&base, "or") {
            return Ok(ParseToken::Instr(Instr::BinOp(BinOp::Or)));
        }
        if crate::text::chars_eq_str(&base, "eq") {
            return Ok(ParseToken::Instr(Instr::BinOp(BinOp::Eq)));
        }
        if crate::text::chars_eq_str(&base, "not") {
            return Ok(ParseToken::Instr(Instr::UnaryOp(UnaryOp::Not)));
        }
        if crate::text::chars_eq_str(&base, "neg") {
            return Ok(ParseToken::Instr(Instr::UnaryOp(UnaryOp::Neg)));
        }
        if crate::text::chars_eq_str(&base, "nop") {
            return Ok(ParseToken::Instr(Instr::Nop));
        }
        if crate::text::chars_eq_str(&base, "dbg") {
            return Ok(ParseToken::Instr(Instr::Dbg));
        }
        return Err(ParseError::UnknownInstr(line_string));
    }
    let arg = ts.pop().unwrap();
    let base = ts.pop().unwrap();
    proof {
        assert(base@ == tokens_from(l@, 0)[0]);
        assert(arg@ == tokens_from(l@, 0)[1]);
    }
    let int_arg: Option<usize> = match crate::text::parse_dec_u128(&arg) {
        Some(m) if m <= usize::MAX as u128 => Some(m as usize),
        _ => None,
    };
    match int_arg {
        Some(n) => {
            proof {
                assert(usize_arg_ok(arg@));
            }
            if crate::text::chars_eq_str(&base, "load_arg") {
                Ok(ParseToken::Instr(Instr::LoadArg(n)))
            } else if crate::text::chars_eq_str(&base, "load_loc") {
                Ok(ParseToken::Instr(Instr::LoadLocal(n)))
            } else if crate::text::chars_eq_str(&base, "load_lit") {
                Ok(ParseToken::Instr(Instr::LoadLit(n)))
            } else if crate::text::chars_eq_str(&base, "store_loc") {
                Ok(ParseToken::Instr(Instr::StoreLocal(n)))
            } else {
                Err(ParseError::UnknownInstr(line_string))
            }
        },
        None => {
            proof {
                assert(!usize_arg_ok(arg@));
            }
            if crate::text::chars_eq_str(&base, "load_func") {
                let s = string_from_chars(&arg);
                match crate::hash_from_str(s.as_str()) {
                    Ok(h) => {
                        proof {
                            assert(hash_lit_ok(arg@));
                        }
                        Ok(ParseToken::Instr(Instr::LoadFunc(h)))
                    },
                    Err(_) => {
                        proof {
                            assert(!hash_lit_ok(arg@));
                        }
                        Err(ParseError::InvalidHash)
                    },
                }
            } else if crate::text::chars_eq_str(&base, "load_dyn") {
                if arg.len() > 0 && arg[0] == '$' {
                    let name_chars = crate::text::sub_chars(&arg, 1, arg.len());
                    proof {
                        assert(name_chars@ =~= arg@.skip(1));
                    }
                    let name = string_from_chars(&name_chars);
                    if crate::is_valid_name(name.as_str()) {
                        Ok(ParseToken::Instr(Instr::LoadDyn(name)))
                    } else {
                        Err(ParseError::InvalidIdent(string_from_chars(&arg)))
                    }
                } else {
                    Err(ParseError::InvalidIdent(string_from_chars(&arg)))
                }
            } else {
                let base_s = string_from_chars(&base);
                let arg_s = string_from_chars(&arg);
                let is_jump = crate::text::chars_eq_str(&base, "jmp") || crate::text::chars_eq_str(
                    &base,
                    "jmp_t",
                ) || crate::text::chars_eq_str(&base, "jmp_f") || crate::text::chars_eq_str(
                    &base,
                    "jmp_eq",
                ) || crate::text::chars_eq_str(&base, "jmp_ne") || crate::text::chars_eq_str(
                    &base,
                    "jmp_gt",
                ) || crate::text::chars_eq_str(&base, "jmp_ge") || crate::text::chars_eq_str(
                    &base,
                    "jmp_lt",
                ) || crate::text::chars_eq_str(&base, "jmp_le");
                if is_jump {
                    match Parser::get_jump_instr(base_s.as_str(), labels, arg_s.as_str()) {
                        Ok(i) => Ok(ParseToken::Instr(i)),
                        Err(e) => Err(e),
                    }
                } else {
                    proof {
                        assert(jump_of(base@, 0) is None);
                    }
                    Err(ParseError::UnknownInstr(line_string))
                }
            }
        },
    }
}

/// The tokens of a body's non-literal lines, in order.
pub open spec fn tokens_model(
    ls: Seq<Seq<char>>,
    labels: Seq<(Seq<char>, usize)>,
    i: int,
) -> Result<Seq<ParseTokV>, ParseErrV>
    decreases ls.len() - i,
{
    if i >= ls.len() {
        Ok(Seq::empty())
    } else {
        match line_model(ls[i], labels) {
            Err(e) => Err(e),
            Ok(t) => match tokens_model(ls, labels, i + 1) {
                Ok(rest) => Ok(seq![t] + rest),
                Err(e) => Err(e),
            },
        }
    }
}

/// Decodes the lines from `i` on into tokens.
fn tokens_rec(ls: &Vec<Vec<char>>, labels: &Vec<(String, usize)>, i: usize) -> (r: Result<
    Vec<ParseToken>,
    ParseError,
>)
    ensures
        match r {
            Ok(toks) => tokens_model(vv_view(ls@), pairs_view(labels@), i as int) == Ok::<
                _,
                ParseErrV,
            >(toks_view(toks@)),
            Err(e) => tokens_model(vv_view(ls@), pairs_view(labels@), i as int) == Err::<
                Seq<ParseTokV>,
                _,
            >(e@),
        },
    decreases ls@.len() - i,
{
    if i >= ls.len() {
        let r: Vec<ParseToken> = Vec::new();
        proof {
            assert(toks_view(r@) =~= Seq::<ParseTokV>::empty());
        }
        return Ok(r);
    }
    proof {
        assert(vv_view(ls@)[i as int] == ls@[i as int]@);
    }
    match decode_line(&ls[i], labels) {
        Err(e) => Err(e),
        Ok(t) => match tokens_rec(ls, labels, i + 1) {
            Err(e) => Err(e),
            Ok(mut rest) => {
                rest.insert(0, t);
                proof {
                    assert(toks_view(rest@) =~~= tokens_model(
                        vv_view(ls@),
                        pairs_view(labels@),
                        i as int,
                    )->Ok_0);
                }
                Ok(rest)
            },
        },
    }
}

} // verus!

verus! {

/// A function body part-way through parsing.
#[derive(Debug)]
pub struct PartialParse {
    /// The parsed lines, in order.
    pub tokens: Vec<ParseToken>,
    /// Label offsets, indexed by label id.
    pub labels: Vec<usize>,
    /// One past the largest local index the body uses.
    pub num_locals: usize,
    /// The literal pool, in order.
    pub literals: Vec<Value>,
}

/// The mathematical shape of a partial parse.
pub struct PartialParseV {
    pub tokens: Seq<ParseTokV>,
    pub labels: Seq<usize>,
    pub num_locals: usize,
    pub literals: Seq<ValV>,
}

impl View for PartialParse {
    type V = PartialParseV;

    open spec fn view(&self) -> PartialParseV {
        PartialParseV {
            tokens: toks_view(self.tokens@),
            labels: self.labels@,
            num_locals: self.num_locals,
            literals: vals_view(self.literals@),
        }
    }
}

/// The non-literal lines of a body.
pub open spec fn code_lines(ls: Seq<Seq<char>>) -> Seq<Seq<char>>
    decreases ls.len(),
{
    if ls.len() == 0 {
        Seq::empty()
    } else if lit_line(ls[0]) {
        code_lines(ls.skip(1))
    } else {
        seq![ls[0]] + code_lines(ls.skip(1))
    }
}

/// The label ids of the label map: the id is the order of definition.
pub open spec fn label_ids(ps: Seq<(Seq<char>, usize)>) -> Seq<(Seq<char>, usize)> {
    Seq::new(ps.len(), |k: int| (ps[k].0, k as usize))
}

/// The label offsets of the label map.
pub open spec fn label_offsets(ps: Seq<(Seq<char>, usize)>) -> Seq<usize> {
    Seq::new(ps.len(), |k: int| ps[k].1)
}

/// The parse of one function body: literals first, then labels over the
/// non-literal lines, then the lines themselves, then the local count.
pub open spec fn parse_function_model(s: Seq<char>) -> Result<PartialParseV, ParseErrV> {
    let ls = lines_from(s, 0);
    match lits_model(ls, 0) {
        Err(e) => Err(e),
        Ok(lits) => {
            let cls = code_lines(ls);
            match labels_model(cls, 0, 0) {
                Err(e) => Err(e),
                Ok(ps) => match tokens_model(cls, label_ids(ps), 0) {
                    Err(e) => Err(e),
                    Ok(toks) => {
                        if max_locals(toks, 0) > usize::MAX {
                            Err(ParseErrV::SyntaxError)
                        } else {
                            Ok(
                                PartialParseV {
                                    tokens: toks,
                                    labels: label_offsets(ps),
                                    num_locals: max_locals(toks, 0) as usize,
                                    literals: lits,
                                },
                            )
                        }
                    },
                },
            }
        },
    }
}

/// Keeps the non-literal lines.
fn code_lines_exec(ls: &Vec<Vec<char>>, i: usize) -> (r: Vec<Vec<char>>)
    requires
        i <= ls@.len(),
    ensures
        vv_view(r@) == code_lines(vv_view(ls@).skip(i as int)),
    decreases ls@.len() - i,
{
    if i >= ls.len() {
        let r: Vec<Vec<char>> = Vec::new();
        proof {
            assert(vv_view(ls@).skip(i as int) =~= Seq::<Seq<char>>::empty());
            assert(vv_view(r@) =~= code_lines(vv_view(ls@).skip(i as int)));
        }
        return r;
    }
    proof {
        assert(vv_view(ls@).skip(i as int)[0] == ls@[i as int]@);
        assert(vv_view(ls@).skip(i as int).skip(1) =~= vv_view(ls@).skip(i as int + 1));
    }
    let line = &ls[i];
    let mut rest = code_lines_exec(ls, i + 1);
    if line.len() > 0 && line[0] == '.' {
        rest
    } else {
        let copy = crate::text::sub_chars(line, 0, line.len());
        proof {
            assert(copy@ =~= line@);
        }
        rest.insert(0, copy);
        proof {
            assert(vv_view(rest@) =~~= code_lines(vv_view(ls@).skip(i as int)));
        }
        rest
    }
}

impl Parser {
    /// Parses the bytecode of a single function body.
    pub fn parse_function(function: &str) -> (r: Result<PartialParse, ParseError>)
        ensures
            match r {
                Ok(p) => parse_function_model(function@) == Ok::<_, ParseErrV>(p@),
                Err(e) => parse_function_model(function@) == Err::<PartialParseV, _>(e@),
            },
    {
        let cs = chars_of(function);
        let lines = lines_exec(&cs, 0);
        let literals = match lits_rec(&lines, 0) {
            Err(e) => {
                return Err(e);
            },
            Ok(vs) => vs,
        };
        let cls = code_lines_exec(&lines, 0);
        proof {
            assert(vv_view(lines@).skip(0) =~= vv_view(lines@));
        }
        let pairs = match labels_rec(&cls, 0, 0) {
            Err(e) => {
                return Err(e);
            },
            Ok(ps) => ps,
        };
        let ghost psv = pairs_view(pairs@);
        let mut ids: Vec<(String, usize)> = Vec::new();
        let mut offsets: Vec<usize> = Vec::new();
        let mut k: usize = 0;
        let ghost pairs0 = pairs@;
        let n = pairs.len();
        let mut pairs_mut = pairs;
        while k < n
            invariant
                k <= n,
                n == psv.len(),
                pairs_mut@.len() == n - k,
                forall|t: int|
                    0 <= t < pairs_mut@.len() ==> (#[trigger] pairs_view(pairs_mut@)[t]) == psv[t
                        + k],
                ids@.len() == k,
                offsets@.len() == k,
                forall|t: int|
                    0 <= t < k ==> (#[trigger] ids@[t].0@) == psv[t].0 && ids@[t].1 == t,
                forall|t: int| 0 <= t < k ==> (#[trigger] offsets@[t]) == psv[t].1,
            decreases n - k,
        {
            let ghost prev = pairs_mut@;
            let (s, off) = pairs_mut.remove(0);
            proof {
                assert(pairs_view(prev)[0] == psv[k as int]);
                assert(s@ == psv[k as int].0 && off == psv[k as int].1);
                assert(forall|t: int|
                    0 <= t < pairs_mut@.len() ==> #[trigger] pairs_mut@[t] == prev[t + 1]);
                assert(forall|t: int|
                    0 <= t < pairs_mut@.len() ==> (#[trigger] pairs_view(pairs_mut@)[t])
                        == pairs_view(prev)[t + 1]);
            }
            ids.push((s, k));
            offsets.push(off);
            k = k + 1;
        }
        proof {
            assert(pairs_view(ids@) =~= label_ids(psv));
            assert(offsets@ =~= label_offsets(psv));
        }
        let tokens = match tokens_rec(&cls, &ids, 0) {
            Err(e) => {
                return Err(e);
            },
            Ok(ts) => ts,
        };
        let num_locals = match Parser::get_num_locals(tokens.as_slice()) {
            Err(e) => {
                return Err(e);
            },
            Ok(nl) => nl,
        };
        Ok(PartialParse { tokens, labels: offsets, num_locals, literals })
    }
}

} // verus!

verus! {

/// The mathematical shape of a parsed function.
pub struct ParseV {
    pub func_name: Seq<char>,
    pub code_obj: CodeObjV,
}

impl View for Parse {
    type V = ParseV;

    open spec fn view(&self) -> ParseV {
        ParseV { func_name: self.func_name@, code_obj: self.code_obj@ }
    }
}

/// The first function header among the tokens, if any.
pub open spec fn first_fd(ts: Seq<ParseTokV>, i: int) -> Option<(Seq<char>, usize)>
    decreases ts.len() - i,
{
    if i >= ts.len() {
        None
    } else {
        match ts[i] {
            ParseTokV::FuncDef(n, a) => Some((n, a)),
            _ => first_fd(ts, i + 1),
        }
    }
}

/// The instructions among the tokens, in order.
pub open spec fn instrs_of(ts: Seq<ParseTokV>, i: int) -> Seq<InstrV>
    decreases ts.len() - i,
{
    if i >= ts.len() {
        Seq::empty()
    } else {
        match ts[i] {
            ParseTokV::Instr(ins) => seq![ins] + instrs_of(ts, i + 1),
            _ => instrs_of(ts, i + 1),
        }
    }
}

/// The generated name of parameter or local `t`: `x` and the decimal
/// index.
pub open spec fn gen_name(t: int) -> Seq<char> {
    seq!['x'] + dec_rep(t as nat)
}

/// The finished parse of a partial one: the first header names the
/// function and gives the arity; parameters and locals get generated
/// names.
pub open spec fn finalize_model(p: PartialParseV) -> Result<ParseV, ParseErrV> {
    match first_fd(p.tokens, 0) {
        None => Err(ParseErrV::NoFunctionDef),
        Some((name, argcount)) => {
            if argcount + p.num_locals > usize::MAX {
                Err(ParseErrV::SyntaxError)
            } else {
                Ok(
                    ParseV {
                        func_name: name,
                        code_obj: CodeObjV {
                            litpool: p.literals,
                            argcount: argcount,
                            localnames: Seq::new(
                                (argcount + p.num_locals) as nat,
                                |t: int| gen_name(t),
                            ),
                            labels: p.labels,
                            code: instrs_of(p.tokens, 0),
                        },
                    },
                )
            }
        },
    }
}

/// Finds the first function header.
fn first_fd_exec(tokens: &Vec<ParseToken>, i: usize) -> (r: Option<(String, usize)>)
    ensures
        match r {
            Some((n, a)) => first_fd(toks_view(tokens@), i as int) == Some((n@, a)),
            None => first_fd(toks_view(tokens@), i as int) is None,
        },
    decreases tokens@.len() - i,
{
    if i >= tokens.len() {
        return None;
    }
    proof {
        assert(toks_view(tokens@)[i as int] == tokens@[i as int]@);
    }
    match &tokens[i] {
        ParseToken::FuncDef(n, a) => Some((n.clone(), *a)),
        _ => first_fd_exec(tokens, i + 1),
    }
}

/// Collects the instruction tokens.
fn instrs_exec(tokens: &Vec<ParseToken>, i: usize) -> (r: Vec<Instr>)
    ensures
        crate::bytecode::Bytecode::new_view(r@) == instrs_of(toks_view(tokens@), i as int),
    decreases tokens@.len() - i,
{
    if i >= tokens.len() {
        let r: Vec<Instr> = Vec::new();
        proof {
            assert(crate::bytecode::Bytecode::new_view(r@) =~= Seq::<InstrV>::empty());
        }
        return r;
    }
    proof {
        assert(toks_view(tokens@)[i as int] == tokens@[i as int]@);
    }
    let mut rest = instrs_exec(tokens, i + 1);
    match &tokens[i] {
        ParseToken::Instr(ins) => {
            rest.insert(0, ins.clone());
            proof {
                assert(crate::bytecode::Bytecode::new_view(rest@) =~~= instrs_of(
                    toks_view(tokens@),
                    i as int,
                ));
            }
            rest
        },
        _ => rest,
    }
}

impl Parser {
    /// Builds the code object of a fully parsed body.
    pub fn finalize_parse(partial: PartialParse) -> (r: Result<Parse, ParseError>)
        ensures
            match r {
                Ok(p) => finalize_model(partial@) == Ok::<_, ParseErrV>(p@),
                Err(e) => finalize_model(partial@) == Err::<ParseV, _>(e@),
            },
    {
        let (name, argcount) = match first_fd_exec(&partial.tokens, 0) {
            None => {
                return Err(ParseError::NoFunctionDef);
            },
            Some(x) => x,
        };
        let num_names = match argcount.checked_add(partial.num_locals) {
            None => {
                return Err(ParseError::SyntaxError);
            },
            Some(n) => n,
        };
        let mut localnames: Vec<String> = Vec::new();
        let mut t: usize = 0;
        while t < num_names
            invariant
                t <= num_names,
                localnames@.len() == t,
                forall|u: int| 0 <= u < t ==> (#[trigger] localnames@[u]@) == gen_name(u),
            decreases num_names - t,
        {
            let mut cs = crate::text::dec_chars(t as u128);
            cs.insert(0, 'x');
            proof {
                assert(cs@ =~= gen_name(t as int));
            }
            localnames.push(string_from_chars(&cs));
            t = t + 1;
        }
        let code = instrs_exec(&partial.tokens, 0);
        let obj = CodeObject {
            litpool: partial.literals,
            argcount,
            localnames,
            labels: partial.labels,
            code: Bytecode::new(code),
        };
        proof {
            let m = finalize_model(partial@)->Ok_0;
            assert(obj@.litpool =~= m.code_obj.litpool);
            assert(obj@.localnames =~= m.code_obj.localnames);
            assert(obj@.code =~= m.code_obj.code);
            assert(obj@ == m.code_obj);
        }
        Ok(Parse { func_name: name, code_obj: obj })
    }
}

} // verus!

verus! {

/// Each line stripped of its comment and trimmed, empty results dropped.
pub open spec fn clean_lines(ls: Seq<Seq<char>>) -> Seq<Seq<char>>
    decreases ls.len(),
{
    if ls.len() == 0 {
        Seq::empty()
    } else {
        let t = trim_chars(strip_from(ls[0], 0, false));
        (if t.len() > 0 {
            seq![t]
        } else {
            Seq::empty()
        }) + clean_lines(ls.skip(1))
    }
}

/// The preprocessed text: comments stripped, lines trimmed, blanks
/// dropped, the rest joined back with newlines.
pub open spec fn preprocess_model(s: Seq<char>) -> Seq<char> {
    join_nl(clean_lines(lines_from(s, 0)))
}

/// Appends every character of `b`.
pub fn append_chars(a: &mut Vec<char>, b: &Vec<char>)
    ensures
        final(a)@ == old(a)@ + b@,
{
    let mut k: usize = 0;
    while k < b.len()
        invariant
            k <= b@.len(),
            a@ == old(a)@ + b@.take(k as int),
        decreases b@.len() - k,
    {
        a.push(b[k]);
        proof {
            assert(old(a)@ + b@.take(k as int + 1) =~= (old(a)@ + b@.take(k as int)).push(
                b@[k as int],
            ));
        }
        k = k + 1;
    }
    proof {
        assert(b@.take(b@.len() as int) =~= b@);
    }
}

/// Cleans the lines from `i` on.
fn clean_rec(ls: &Vec<Vec<char>>, i: usize) -> (r: Vec<Vec<char>>)
    requires
        i <= ls@.len(),
    ensures
        vv_view(r@) == clean_lines(vv_view(ls@).skip(i as int)),
    decreases ls@.len() - i,
{
    if i >= ls.len() {
        let r: Vec<Vec<char>> = Vec::new();
        proof {
            assert(vv_view(ls@).skip(i as int) =~= Seq::<Seq<char>>::empty());
            assert(vv_view(r@) =~= clean_lines(vv_view(ls@).skip(i as int)));
        }
        return r;
    }
    proof {
        assert(vv_view(ls@).skip(i as int)[0] == ls@[i as int]@);
        assert(vv_view(ls@).skip(i as int).skip(1) =~= vv_view(ls@).skip(i as int + 1));
    }
    let stripped = strip_exec(&ls[i], 0, false);
    let t = trim_exec(&stripped);
    let mut rest = clean_rec(ls, i + 1);
    if t.len() > 0 {
        rest.insert(0, t);
        proof {
            assert(vv_view(rest@) =~~= clean_lines(vv_view(ls@).skip(i as int)));
        }
        rest
    } else {
        rest
    }
}

/// Joins the lines from `i` on with newlines.
pub fn join_rec(ls: &Vec<Vec<char>>, i: usize) -> (r: Vec<char>)
    requires
        i <= ls@.len(),
    ensures
        r@ == join_nl(vv_view(ls@).skip(i as int)),
    decreases ls@.len() - i,
{
    if i >= ls.len() {
        let r: Vec<char> = Vec::new();
        proof {
            assert(vv_view(ls@).skip(i as int) =~= Seq::<Seq<char>>::empty());
        }
        return r;
    }
    proof {
        assert(vv_view(ls@).skip(i as int)[0] == ls@[i as int]@);
        assert(vv_view(ls@).skip(i as int).skip(1) =~= vv_view(ls@).skip(i as int + 1));
    }
    let mut out = crate::text::sub_chars(&ls[i], 0, ls[i].len());
    proof {
        assert(out@ =~= ls@[i as int]@);
    }
    if i + 1 >= ls.len() {
        proof {
            assert(vv_view(ls@).skip(i as int).len() == 1);
        }
        return out;
    }
    out.push('\n');
    let rest = join_rec(ls, i + 1);
    append_chars(&mut out, &rest);
    proof {
        assert(out@ =~= join_nl(vv_view(ls@).skip(i as int)));
    }
    out
}

impl Parser {
    /// Strips comments and blank lines off a whole source text.
    pub fn preprocess(contents: &str) -> (r: String)
        ensures
            r@ == preprocess_model(contents@),
    {
        let cs = chars_of(contents);
        let lines = lines_exec(&cs, 0);
        let cleaned = clean_rec(&lines, 0);
        proof {
            assert(vv_view(lines@).skip(0) =~= vv_view(lines@));
        }
        let joined = join_rec(&cleaned, 0);
        proof {
            assert(vv_view(cleaned@).skip(0) =~= vv_view(cleaned@));
        }
        string_from_chars(&joined)
    }
}

} // verus!

verus! {

/// The views of a vector of line groups.
pub open spec fn vvv_view(v: Seq<Vec<Vec<char>>>) -> Seq<Seq<Seq<char>>> {
    Seq::new(
        v.len(),
        |i: int|
            if 0 <= i < v.len() {
                vv_view(v[i]@)
            } else {
                Seq::empty()
            },
    )
}

/// The raw nonempty lines, each trimmed.
pub open spec fn sf_lines(ls: Seq<Seq<char>>) -> Seq<Seq<char>>
    decreases ls.len(),
{
    if ls.len() == 0 {
        Seq::empty()
    } else {
        (if ls[0].len() > 0 {
            seq![trim_chars(ls[0])]
        } else {
            Seq::empty()
        }) + sf_lines(ls.skip(1))
    }
}

/// Groups lines into functions: a header line starts a new group; other
/// lines join the last group, or start one when none exists yet.
pub open spec fn group_fns(ls: Seq<Seq<char>>, acc: Seq<Seq<Seq<char>>>) -> Seq<Seq<Seq<char>>>
    decreases ls.len(),
{
    if ls.len() == 0 {
        acc
    } else {
        let l = ls[0];
        let acc2 = if fd_shape(l) {
            acc.push(seq![l])
        } else if acc.len() > 0 {
            acc.update(acc.len() - 1, acc.last().push(l))
        } else {
            acc.push(seq![l])
        };
        group_fns(ls.skip(1), acc2)
    }
}

/// The function groups of a source text, each joined back into one
/// string.
pub open spec fn split_functions_model(s: Seq<char>) -> Seq<Seq<char>> {
    let groups = group_fns(sf_lines(lines_from(s, 0)), Seq::empty());
    Seq::new(groups.len(), |i: int| join_nl(groups[i]))
}

/// True when the line has the header shape.
fn is_fd_shape_exec(l: &Vec<char>) -> (r: bool)
    ensures
        r == fd_shape(l@),
{
    let mut ts = tokens_exec(l, 0);
    if ts.len() != 2 {
        return false;
    }
    let t1 = ts.pop().unwrap();
    let t0 = ts.pop().unwrap();
    proof {
        assert(t0@ == tokens_from(l@, 0)[0]);
        assert(t1@ == tokens_from(l@, 0)[1]);
    }
    t0.len() > 0 && t1.len() > 0 && t0[0] == '$' && t1[t1.len() - 1] == ':'
}

/// Keeps the raw nonempty lines, trimmed.
fn sf_lines_exec(ls: &Vec<Vec<char>>, i: usize) -> (r: Vec<Vec<char>>)
    requires
        i <= ls@.len(),
    ensures
        vv_view(r@) == sf_lines(vv_view(ls@).skip(i as int)),
    decreases ls@.len() - i,
{
    if i >= ls.len() {
        let r: Vec<Vec<char>> = Vec::new();
        proof {
            assert(vv_view(ls@).skip(i as int) =~= Seq::<Seq<char>>::empty());
            assert(vv_view(r@) =~= sf_lines(vv_view(ls@).skip(i as int)));
        }
        return r;
    }
    proof {
        assert(vv_view(ls@).skip(i as int)[0] == ls@[i as int]@);
        assert(vv_view(ls@).skip(i as int).skip(1) =~= vv_view(ls@).skip(i as int + 1));
    }
    let mut rest = sf_lines_exec(ls, i + 1);
    if ls[i].len() > 0 {
        let t = trim_exec(&ls[i]);
        rest.insert(0, t);
        proof {
            assert(vv_view(rest@) =~~= sf_lines(vv_view(ls@).skip(i as int)));
        }
        rest
    } else {
        rest
    }
}

impl Parser {
    /// Splits a source text into one string per function, headers first.
    pub fn split_functions(contents: &str) -> (r: Result<Vec<String>, ParseError>)
        ensures
            r is Ok,
            ({
                let gs = split_functions_model(contents@);
                let out = r->Ok_0;
                &&& out@.len() == gs.len()
                &&& forall|i: int| 0 <= i < gs.len() ==> (#[trigger] out@[i]@) == gs[i]
            }),
    {
        let cs = chars_of(contents);
        let raw = lines_exec(&cs, 0);
        let lines = sf_lines_exec(&raw, 0);
        proof {
            assert(vv_view(raw@).skip(0) =~= vv_view(raw@));
        }
        let ghost lsv = vv_view(lines@);
        let mut groups: Vec<Vec<Vec<char>>> = Vec::new();
        let mut k: usize = 0;
        proof {
            assert(vvv_view(groups@) =~= Seq::<Seq<Seq<char>>>::empty());
            assert(lsv.skip(0) =~= lsv);
        }
        while k < lines.len()
            invariant
                k <= lines@.len(),
                lsv == vv_view(lines@),
                group_fns(lsv, Seq::empty()) == group_fns(
                    lsv.skip(k as int),
                    vvv_view(groups@),
                ),
            decreases lines@.len() - k,
        {
            proof {
                assert(lsv.skip(k as int)[0] == lines@[k as int]@);
                assert(lsv.skip(k as int).skip(1) =~= lsv.skip(k as int + 1));
            }
            let line = crate::text::sub_chars(&lines[k], 0, lines[k].len());
            proof {
                assert(line@ =~= lines@[k as int]@);
            }
            let ghost accv = vvv_view(groups@);
            if is_fd_shape_exec(&line) {
                let mut g: Vec<Vec<char>> = Vec::new();
                g.push(line);
                groups.push(g);
                proof {
                    assert(vv_view(g@) =~= seq![lines@[k as int]@]);
                    assert(vvv_view(groups@) =~~= accv.push(seq![lsv.skip(k as int)[0]]));
                }
            } else if groups.len() > 0 {
                let mut last = groups.pop().unwrap();
                let ghost lastv = vv_view(last@);
                last.push(line);
                proof {
                    assert(vv_view(last@) =~~= lastv.push(lsv.skip(k as int)[0]));
                }
                groups.push(last);
                proof {
                    assert(vvv_view(groups@) =~~= accv.update(
                        accv.len() - 1,
                        accv.last().push(lsv.skip(k as int)[0]),
                    ));
                }
            } else {
                let mut g: Vec<Vec<char>> = Vec::new();
                g.push(line);
                groups.push(g);
                proof {
                    assert(vv_view(g@) =~= seq![lines@[k as int]@]);
                    assert(vvv_view(groups@) =~~= accv.push(seq![lsv.skip(k as int)[0]]));
                }
            }
            k = k + 1;
        }
        proof {
            assert(lsv.skip(lsv.len() as int) =~= Seq::<Seq<char>>::empty());
        }
        let ghost groupsv = vvv_view(groups@);
        let mut out: Vec<String> = Vec::new();
        let mut j: usize = 0;
        let n = groups.len();
        while j < n
            invariant
                j <= n,
                n == groups@.len(),
                groupsv == vvv_view(groups@),
                out@.len() == j,
                forall|t: int| 0 <= t < j ==> (#[trigger] out@[t]@) == join_nl(groupsv[t]),
            decreases n - j,
        {
            let joined = join_rec(&groups[j], 0);
            proof {
                assert(vv_view(groups@[j as int]@).skip(0) =~= vv_view(groups@[j as int]@));
                assert(vv_view(groups@[j as int]@) == groupsv[j as int]);
            }
            out.push(string_from_chars(&joined));
            j = j + 1;
        }
        Ok(out)
    }
}

} // verus!

verus! {

/// The views of a vector of parses.
pub open spec fn parses_view(v: Seq<Parse>) -> Seq<ParseV> {
    Seq::new(
        v.len(),
        |i: int|
            if 0 <= i < v.len() {
                v[i]@
            } else {
                v[0]@
            },
    )
}

/// The parse of one function group: parse the body, then finish it.
pub open spec fn parse_one_model(g: Seq<char>) -> Result<ParseV, ParseErrV> {
    match parse_function_model(g) {
        Err(e) => Err(e),
        Ok(pp) => finalize_model(pp),
    }
}

/// The parses of the groups from `i` on; the first error wins.
pub open spec fn parses_model(gs: Seq<Seq<char>>, i: int) -> Result<Seq<ParseV>, ParseErrV>
    decreases gs.len() - i,
{
    if i >= gs.len() {
        Ok(Seq::empty())
    } else {
        match parse_one_model(gs[i]) {
            Err(e) => Err(e),
            Ok(p) => match parses_model(gs, i + 1) {
                Ok(rest) => Ok(seq![p] + rest),
                Err(e) => Err(e),
            },
        }
    }
}

/// The parse of a whole source text: preprocess, split into functions,
/// parse each.
pub open spec fn parse_file_model(s: Seq<char>) -> Result<Seq<ParseV>, ParseErrV> {
    parses_model(split_functions_model(preprocess_model(s)), 0)
}

impl Parser {
    /// Parses the text of an assembly file into its functions.
    pub fn parse_file(contents: &str) -> (r: Result<Vec<Parse>, ParseError>)
        ensures
            match r {
                Ok(ps) => parse_file_model(contents@) == Ok::<_, ParseErrV>(parses_view(ps@)),
                Err(e) => parse_file_model(contents@) == Err::<Seq<ParseV>, _>(e@),
            },
    {
        let pre = Parser::preprocess(contents);
        let groups = match Parser::split_functions(pre.as_str()) {
            Ok(gs) => gs,
            Err(e) => {
                return Err(e);
            },
        };
        let ghost gsv = split_functions_model(preprocess_model(contents@));
        let mut out: Vec<Parse> = Vec::new();
        let mut k: usize = 0;
        let n = groups.len();
        proof {
            assert(ok_concat(parses_view(out@), parses_model(gsv, 0)) == parses_model(gsv, 0))
                by {
                match parses_model(gsv, 0) {
                    Ok(rest) => {
                        assert(parses_view(out@) + rest =~= rest);
                    },
                    Err(_) => {},
                }
            }
        }
        while k < n
            invariant
                k <= n,
                n == groups@.len(),
                gsv == split_functions_model(preprocess_model(contents@)),
                gsv.len() == n,
                forall|t: int| 0 <= t < n ==> (#[trigger] groups@[t]@) == gsv[t],
                out@.len() == k,
                parses_model(gsv, 0) == ok_concat(
                    parses_view(out@),
                    parses_model(gsv, k as int),
                ),
            decreases n - k,
        {
            let ghost prefix = parses_view(out@);
            let p = match Parser::parse_function(groups[k].as_str()) {
                Err(e) => {
                    proof {
                        assert(parse_one_model(gsv[k as int]) == Err::<ParseV, ParseErrV>(e@));
                        assert(parses_model(gsv, k as int) == Err::<Seq<ParseV>, ParseErrV>(e@));
                    }
                    return Err(e);
                },
                Ok(pp) => match Parser::finalize_parse(pp) {
                    Err(e) => {
                        proof {
                            assert(parse_one_model(gsv[k as int]) == Err::<ParseV, ParseErrV>(
                                e@,
                            ));
                            assert(parses_model(gsv, k as int) == Err::<Seq<ParseV>, ParseErrV>(
                                e@,
                            ));
                        }
                        return Err(e);
                    },
                    Ok(p) => p,
                },
            };
            proof {
                assert(parse_one_model(gsv[k as int]) == Ok::<_, ParseErrV>(p@));
            }
            out.push(p);
            proof {
                assert(parses_view(out@) =~= prefix.push(p@));
                match parses_model(gsv, k as int + 1) {
                    Ok(rest) => {
                        assert(parses_model(gsv, k as int) == Ok::<_, ParseErrV>(
                            seq![p@] + rest,
                        ));
                        assert(prefix + (seq![p@] + rest) =~= parses_view(out@) + rest);
                    },
                    Err(e) => {
                        assert(parses_model(gsv, k as int) == Err::<Seq<ParseV>, ParseErrV>(e));
                    },
                }
            }
            k = k + 1;
        }
        proof {
            assert(parses_model(gsv, n as int) == Ok::<Seq<ParseV>, ParseErrV>(Seq::empty()));
            assert(parses_view(out@) + Seq::<ParseV>::empty() =~= parses_view(out@));
        }
        Ok(out)
    }
}

/// `r` with `prefix` prepended to a successful list.
pub open spec fn ok_concat(prefix: Seq<ParseV>, r: Result<Seq<ParseV>, ParseErrV>) -> Result<
    Seq<ParseV>,
    ParseErrV,
> {
    match r {
        Ok(rest) => Ok(prefix + rest),
        Err(e) => Err(e),
    }
}

} // verus!

verus! {

/// Every header token the line decoder admits carries a valid name.
proof fn lemma_tokens_fd_valid(
    ls: Seq<Seq<char>>,
    labels: Seq<(Seq<char>, usize)>,
    i: int,
    toks: Seq<ParseTokV>,
)
    requires
        tokens_model(ls, labels, i) == Ok::<Seq<ParseTokV>, ParseErrV>(toks),
    ensures
        forall|j: int|
            0 <= j < toks.len() ==> match #[trigger] toks[j] {
                ParseTokV::FuncDef(n, _) => crate::valid_name(n),
                _ => true,
            },
    decreases ls.len() - i,
{
    if i < ls.len() {
        match line_model(ls[i], labels) {
            Ok(t) => {
                match tokens_model(ls, labels, i + 1) {
                    Ok(rest) => {
                        lemma_tokens_fd_valid(ls, labels, i + 1, rest);
                        assert(toks =~= seq![t] + rest);
                        assert forall|j: int|
                            0 <= j < toks.len() implies match #[trigger] toks[j] {
                            ParseTokV::FuncDef(n, _) => crate::valid_name(n),
                            _ => true,
                        } by {
                            if j == 0 {
                                match t {
                                    ParseTokV::FuncDef(n, _) => {
                                        assert(fd_valid(ls[i]));
                                    },
                                    _ => {},
                                }
                            } else {
                                assert(toks[j] == rest[j - 1]);
                            }
                        }
                    },
                    Err(_) => {},
                }
            },
            Err(_) => {},
        }
    }
}

/// The first header found among the tokens is one of them.
proof fn lemma_first_fd_witness(ts: Seq<ParseTokV>, i: int)
    requires
        first_fd(ts, i) is Some,
        0 <= i <= ts.len(),
    ensures
        exists|j: int|
            i <= j < ts.len() && #[trigger] ts[j] == ParseTokV::FuncDef(
                first_fd(ts, i)->Some_0.0,
                first_fd(ts, i)->Some_0.1,
            ),
    decreases ts.len() - i,
{
    if i < ts.len() {
        match ts[i] {
            ParseTokV::FuncDef(n, a) => {
                assert(ts[i] == ParseTokV::FuncDef(n, a));
            },
            _ => {
                lemma_first_fd_witness(ts, i + 1);
            },
        }
    }
}

/// Every function a parse run yields is defined under a valid name.
pub proof fn lemma_parses_valid_names(gs: Seq<Seq<char>>, i: int, ps: Seq<ParseV>)
    requires
        parses_model(gs, i) == Ok::<Seq<ParseV>, ParseErrV>(ps),
    ensures
        forall|s: int| 0 <= s < ps.len() ==> crate::valid_name((#[trigger] ps[s]).func_name),
    decreases gs.len() - i,
{
    if i < gs.len() {
        match parse_one_model(gs[i]) {
            Ok(p) => {
                match parses_model(gs, i + 1) {
                    Ok(rest) => {
                        lemma_parses_valid_names(gs, i + 1, rest);
                        assert(ps =~= seq![p] + rest);
                        assert(crate::valid_name(p.func_name)) by {
                            let pp = parse_function_model(gs[i])->Ok_0;
                            let cls = code_lines(lines_from(gs[i], 0));
                            let lm = labels_model(cls, 0, 0)->Ok_0;
                            assert(tokens_model(cls, label_ids(lm), 0) == Ok::<
                                Seq<ParseTokV>,
                                ParseErrV,
                            >(pp.tokens));
                            lemma_tokens_fd_valid(cls, label_ids(lm), 0, pp.tokens);
                            lemma_first_fd_witness(pp.tokens, 0);
                            let j = choose|j: int|
                                0 <= j < pp.tokens.len() && #[trigger] pp.tokens[j]
                                    == ParseTokV::FuncDef(
                                    first_fd(pp.tokens, 0)->Some_0.0,
                                    first_fd(pp.tokens, 0)->Some_0.1,
                                );
                            assert(match pp.tokens[j] {
                                ParseTokV::FuncDef(n, _) => crate::valid_name(n),
                                _ => true,
                            });
                        }
                        assert forall|s: int|
                            0 <= s < ps.len() implies crate::valid_name(
                            (#[trigger] ps[s]).func_name,
                        ) by {
                            if s > 0 {
                                assert(ps[s] == rest[s - 1]);
                            }
                        }
                    },
                    Err(_) => {},
                }
            },
            Err(_) => {},
        }
    }
}

} // verus!
