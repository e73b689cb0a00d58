//! The decoder for the fixed byte encoding of code objects: the inverse
//! of serialization, with a soundness contract — whatever the decoder
//! accepts re-encodes to exactly the bytes it read.

use vstd::prelude::*;
use crate::bytecode::{BinOp, Bytecode, Instr, InstrV, UnaryOp};
use crate::hashing::{be_byte_rep, bytes_be_val, pow256, lemma_pow256_le_15, lemma_pow256_values};
use crate::object::{
    enc_chars, enc_chars_body, enc_instr, enc_instrs_body, enc_labels_body, enc_len,
    enc_names_body, enc_val, enc_val_payload, enc_vals_body, encode_obj, val_tag, CodeObject,
};
use crate::text::string_from_chars;
use crate::value::{ValV, Value};

verus! {

/// Why a byte string was rejected as a code object.
#[derive(Debug, Clone, Copy, PartialEq, Eq, Structural)]
pub enum DecodeError {
    /// The bytes end before the structure does.
    Truncated,
    /// A tag byte that names no value or instruction.
    UnknownTag,
    /// A length or offset too large for this machine.
    Oversize,
    /// Four bytes that are not a character.
    InvalidChar,
    /// Bytes left over after the object's structure ended.
    TrailingBytes,
}

/// The big-endian rendering of a byte string's value is the string
/// itself.
proof fn lemma_rep_of_val(b: Seq<u8>)
    ensures
        0 <= bytes_be_val(b) < pow256(b.len()),
        be_byte_rep(bytes_be_val(b) as nat, b.len()) == b,
    decreases b.len(),
{
    if b.len() == 0 {
        assert(be_byte_rep(0, 0) =~= b);
    } else {
        lemma_rep_of_val(b.drop_last());
        let v = bytes_be_val(b);
        let d = bytes_be_val(b.drop_last());
        assert(v == d * 256 + b.last());
        assert(d * 256 + 256 <= pow256((b.len() - 1) as nat) * 256);
        assert(v % 256 == b.last() as int && v / 256 == d) by (nonlinear_arith)
            requires
                v == d * 256 + b.last(),
                0 <= d,
                0 <= b.last() < 256,
        ;
        assert(be_byte_rep(v as nat, b.len()) =~= b) by {
            assert(be_byte_rep(v as nat, b.len()) == be_byte_rep((v as nat) / 256, (b.len()
                - 1) as nat).push(((v as nat) % 256) as u8));
            assert((v as nat) / 256 == d as nat);
            assert(((v as nat) % 256) as u8 == b.last());
        }
    }
}

/// Converts a code point to a character.
///
/// Relies on `char::from_u32`: `Some` exactly when the value is a valid
/// Unicode scalar, holding the character with that code point.
#[verifier::external_body]
fn char_from_u32(v: u32) -> (r: Option<char>)
    ensures
        match r {
            Some(c) => c as u32 == v,
            None => true,
        },
{
    char::from_u32(v)
}

/// Reads `width` big-endian bytes at `at` as a number.
fn read_be(bytes: &Vec<u8>, at: usize, width: usize) -> (r: Result<(u128, usize), DecodeError>)
    requires
        at <= bytes@.len(),
        width <= 16,
    ensures
        match r {
            Ok((v, at2)) => {
                &&& at2 == at + width
                &&& at2 <= bytes@.len()
                &&& bytes@.subrange(at as int, at2 as int) == be_byte_rep(
                    v as nat,
                    width as nat,
                )
                &&& v < pow256(width as nat)
            },
            Err(e) => e == DecodeError::Truncated && bytes@.len() - at < width,
        },
{
    if bytes.len() - at < width {
        return Err(DecodeError::Truncated);
    }
    let mut acc: u128 = 0;
    let mut k: usize = 0;
    while k < width
        invariant
            k <= width <= 16,
            at + width <= bytes@.len(),
            bytes@.len() <= usize::MAX,
            acc == bytes_be_val(bytes@.subrange(at as int, at as int + k)),
            acc < pow256(k as nat),
        decreases width - k,
    {
        proof {
            lemma_pow256_values();
            assert(bytes@.subrange(at as int, at as int + k + 1).drop_last() =~= bytes@.subrange(
                at as int,
                at as int + k,
            ));
            assert(bytes@.subrange(at as int, at as int + k + 1).last() == bytes@[at + k]);
            if k < 15 {
                lemma_pow256_le_15(k as nat);
            }
        }
        acc = acc * 256 + bytes[at + k] as u128;
        k = k + 1;
    }
    proof {
        lemma_rep_of_val(bytes@.subrange(at as int, at as int + width));
    }
    Ok((acc, at + width))
}

/// Reads a length field: 8 bytes that must fit this machine's word.
fn read_len(bytes: &Vec<u8>, at: usize) -> (r: Result<(usize, usize), DecodeError>)
    requires
        at <= bytes@.len(),
    ensures
        match r {
            Ok((n, at2)) => {
                &&& at2 == at + 8
                &&& at2 <= bytes@.len()
                &&& bytes@.subrange(at as int, at2 as int) == enc_len(n as nat)
            },
            Err(e) => (e == DecodeError::Truncated && bytes@.len() - at < 8) || e
                == DecodeError::Oversize,
        },
{
    let (v, at2) = read_be(bytes, at, 8)?;
    if v > usize::MAX as u128 {
        return Err(DecodeError::Oversize);
    }
    Ok((v as usize, at2))
}

/// Reads one character: 4 bytes naming a valid code point.
fn read_char(bytes: &Vec<u8>, at: usize) -> (r: Result<(char, usize), DecodeError>)
    requires
        at <= bytes@.len(),
    ensures
        match r {
            Ok((c, at2)) => {
                &&& at2 == at + 4
                &&& at2 <= bytes@.len()
                &&& bytes@.subrange(at as int, at2 as int) == be_byte_rep(
                    (c as u32) as nat,
                    4,
                )
            },
            Err(e) => (e == DecodeError::Truncated && bytes@.len() - at < 4) || e
                == DecodeError::InvalidChar,
        },
{
    let (v, at2) = read_be(bytes, at, 4)?;
    proof {
        lemma_pow256_values();
        assert(pow256(4) == 0x100000000) by {
            assert(pow256(0) == 1);
            assert(pow256(1) == 0x100);
            assert(pow256(2) == 0x10000);
            assert(pow256(3) == 0x1000000);
            assert(pow256(4) == 0x100000000);
        }
    }
    match char_from_u32(v as u32) {
        None => Err(DecodeError::InvalidChar),
        Some(c) => Ok((c, at2)),
    }
}

/// Reads a string: a length, then that many characters.
fn read_string(bytes: &Vec<u8>, at: usize) -> (r: Result<(String, usize), DecodeError>)
    requires
        at <= bytes@.len(),
    ensures
        match r {
            Ok((s, at2)) => {
                &&& at <= at2 <= bytes@.len()
                &&& bytes@.subrange(at as int, at2 as int) == enc_chars(s@)
            },
            Err(_) => true,
        },
{
    let (n, mut cur) = read_len(bytes, at)?;
    let mut cs: Vec<char> = Vec::new();
    let mut j: usize = 0;
    while j < n
        invariant
            at + 8 <= cur <= bytes@.len(),
            j <= n,
            cs@.len() == j,
            bytes@.subrange(at as int, at + 8) == enc_len(n as nat),
            bytes@.subrange(at + 8, cur as int) == enc_chars_body(cs@),
        decreases n - j,
    {
        let ghost prev = cs@;
        let ghost cur0 = cur;
        let (c, cur2) = match read_char(bytes, cur) {
            Err(e) => {
                return Err(e);
            },
            Ok(x) => x,
        };
        cs.push(c);
        proof {
            assert(cs@.drop_last() =~= prev);
            assert(enc_chars_body(cs@) == enc_chars_body(prev) + be_byte_rep(
                (c as u32) as nat,
                4,
            ));
            assert(bytes@.subrange(at + 8, cur2 as int) =~= bytes@.subrange(at + 8, cur0 as int)
                + bytes@.subrange(cur0 as int, cur2 as int));
        }
        cur = cur2;
        j = j + 1;
    }
    proof {
        assert(bytes@.subrange(at as int, cur as int) =~= bytes@.subrange(at as int, at + 8)
            + bytes@.subrange(at + 8, cur as int));
        assert(bytes@.subrange(at as int, cur as int) =~= enc_chars(cs@));
    }
    let s = string_from_chars(&cs);
    Ok((s, cur))
}

} // verus!

verus! {

broadcast use vstd::std_specs::vec::group_vec_axioms, vstd::seq::axiom_seq_index_decreases;

/// Recovers the signed byte whose unsigned rendering is `v`.
fn sign8(v: u128) -> (x: i8)
    requires
        v < 256,
    ensures
        (x as u8) as nat == v,
{
    let b: u8 = v as u8;
    if b < 128 {
        let x: i8 = b as i8;
        proof {
            assert(x as u8 == b) by (bit_vector)
                requires
                    x == b as i8 && b < 128,
            ;
        }
        x
    } else {
        let x: i8 = ((b as i16) - 256) as i8;
        proof {
            assert(x as u8 == b) by (bit_vector)
                requires
                    x as i16 == (b as i16) - 256 && b >= 128,
            ;
        }
        x
    }
}

/// Recovers the signed 16-bit value whose unsigned rendering is `v`.
fn sign16(v: u128) -> (x: i16)
    requires
        v < 0x10000,
    ensures
        (x as u16) as nat == v,
{
    let b: u16 = v as u16;
    if b < 0x8000 {
        let x: i16 = b as i16;
        proof {
            assert(x as u16 == b) by (bit_vector)
                requires
                    x == b as i16 && b < 0x8000,
            ;
        }
        x
    } else {
        let x: i16 = ((b as i32) - 0x10000) as i16;
        proof {
            assert(x as u16 == b) by (bit_vector)
                requires
                    x as i32 == (b as i32) - 0x10000 && b >= 0x8000,
            ;
        }
        x
    }
}

/// Recovers the signed 32-bit value whose unsigned rendering is `v`.
fn sign32(v: u128) -> (x: i32)
    requires
        v < 0x100000000,
    ensures
        (x as u32) as nat == v,
{
    let b: u32 = v as u32;
    if b < 0x80000000 {
        let x: i32 = b as i32;
        proof {
            assert(x as u32 == b) by (bit_vector)
                requires
                    x == b as i32 && b < 0x80000000,
            ;
        }
        x
    } else {
        let x: i32 = ((b as i64) - 0x100000000) as i32;
        proof {
            assert(x as u32 == b) by (bit_vector)
                requires
                    x as i64 == (b as i64) - 0x100000000 && b >= 0x80000000,
            ;
        }
        x
    }
}

/// Recovers the signed 64-bit value whose unsigned rendering is `v`.
fn sign64(v: u128) -> (x: i64)
    requires
        v < 0x10000000000000000,
    ensures
        (x as u64) as nat == v,
{
    let b: u64 = v as u64;
    if b < 0x8000000000000000 {
        let x: i64 = b as i64;
        proof {
            assert(x as u64 == b) by (bit_vector)
                requires
                    x == b as i64 && b < 0x8000000000000000,
            ;
        }
        x
    } else {
        let x: i64 = ((b as i128) - 0x10000000000000000) as i64;
        proof {
            assert(x as u64 == b) by (bit_vector)
                requires
                    x as i128 == (b as i128) - 0x10000000000000000 && b >= 0x8000000000000000,
            ;
        }
        x
    }
}

/// Recovers the signed 128-bit value whose unsigned rendering is `v`.
fn sign128(v: u128) -> (x: i128)
    ensures
        (x as u128) as nat == v,
{
    if v < 0x80000000000000000000000000000000 {
        let x: i128 = v as i128;
        proof {
            assert(x as u128 == v) by (bit_vector)
                requires
                    x == v as i128 && v < 0x80000000000000000000000000000000,
            ;
        }
        x
    } else {
        let x: i128 = -((u128::MAX - v) as i128) - 1;
        proof {
            assert(x as u128 == v) by (bit_vector)
                requires
                    x == -((u128::MAX - v) as i128) - 1 && v
                        >= 0x80000000000000000000000000000000,
            ;
        }
        x
    }
}

/// Recovers the machine-width signed value whose 64-bit unsigned
/// rendering is `v`; fails when it does not fit this machine's word.
fn sign_size(v: u128) -> (r: Result<isize, DecodeError>)
    requires
        v < 0x10000000000000000,
    ensures
        match r {
            Ok(x) => ((x as i64) as u64) as nat == v,
            Err(e) => e == DecodeError::Oversize,
        },
{
    let w = sign64(v);
    if w < isize::MIN as i64 || w > isize::MAX as i64 {
        return Err(DecodeError::Oversize);
    }
    let x: isize = w as isize;
    proof {
        assert(x as i64 == w);
    }
    Ok(x)
}

} // verus!

verus! {

/// The concrete values of `pow256` at the small widths the decoder
/// reads.
proof fn lemma_pow256_small()
    ensures
        pow256(1) == 0x100,
        pow256(2) == 0x10000,
        pow256(4) == 0x100000000,
        pow256(8) == 0x10000000000000000,
{
    assert(pow256(0) == 1);
    assert(pow256(1) == 0x100);
    assert(pow256(2) == 0x10000);
    assert(pow256(3) == 0x1000000);
    assert(pow256(4) == 0x100000000);
    assert(pow256(5) == 0x10000000000);
    assert(pow256(6) == 0x1000000000000);
    assert(pow256(7) == 0x100000000000000);
    assert(pow256(8) == 0x10000000000000000);
}

/// The view and encoding of a character value.
proof fn lemma_char_view(c: char)
    ensures
        (Value::Char(c))@ == ValV::Char(c),
        enc_val(ValV::Char(c)) == seq![12u8] + be_byte_rep((c as u32) as nat, 4),
{
    assert(enc_val(ValV::Char(c)) =~= seq![12u8] + be_byte_rep((c as u32) as nat, 4));
}

/// Reads a character value, its tag byte already checked at `at`.
#[verifier::rlimit(100)]
fn read_char_value(bytes: &Vec<u8>, at: usize) -> (r: Result<(Value, usize), DecodeError>)
    requires
        at < bytes@.len(),
        bytes@[at as int] == 12u8,
    ensures
        match r {
            Ok((x, at2)) => {
                &&& at < at2 <= bytes@.len()
                &&& bytes@.subrange(at as int, at2 as int) == enc_val(x@)
            },
            Err(_) => true,
        },
{
    let total = bytes.len();
    let cur = at + 1;
    let (c, at2) = read_char(bytes, cur)?;
    let x = Value::Char(c);
    proof {
        lemma_char_view(c);
        assert(x@ == ValV::Char(c));
        assert(bytes@.subrange(at as int, at as int + 1) =~= seq![bytes@[at as int]]);
        assert(bytes@.subrange(at as int, at2 as int) =~= bytes@.subrange(
            at as int,
            cur as int,
        ) + bytes@.subrange(cur as int, at2 as int));
        assert(bytes@.subrange(at as int, at2 as int) =~= enc_val(x@));
    }
    Ok((x, at2))
}

/// Reads the payload of a scalar value (any tag but the container's),
/// given the tag byte already read at `at`.
#[verifier::rlimit(100)]
fn read_scalar_value(bytes: &Vec<u8>, at: usize, tag: u8) -> (r: Result<
    (Value, usize),
    DecodeError,
>)
    requires
        at < bytes@.len(),
        bytes@[at as int] == tag,
        tag != 16,
    ensures
        match r {
            Ok((x, at2)) => {
                &&& at < at2 <= bytes@.len()
                &&& bytes@.subrange(at as int, at2 as int) == enc_val(x@)
            },
            Err(_) => true,
        },
{
    let total = bytes.len();
    let cur = at + 1;
    proof {
        lemma_pow256_small();
        assert(bytes@.subrange(at as int, at as int + 1) =~= seq![bytes@[at as int]]);
    }
    match tag {
        0u8 => {
            let (v, at2) = read_be(bytes, cur, 1)?;
            let x = Value::I8(sign8(v));
            proof {
                assert(bytes@.subrange(at as int, at2 as int) =~= enc_val(x@));
            }
            Ok((x, at2))
        },
        1u8 => {
            let (v, at2) = read_be(bytes, cur, 1)?;
            let x = Value::U8(v as u8);
            proof {
                assert(bytes@.subrange(at as int, at2 as int) =~= enc_val(x@));
            }
            Ok((x, at2))
        },
        2u8 => {
            let (v, at2) = read_be(bytes, cur, 2)?;
            let x = Value::I16(sign16(v));
            proof {
                assert(bytes@.subrange(at as int, at2 as int) =~= enc_val(x@));
            }
            Ok((x, at2))
        },
        3u8 => {
            let (v, at2) = read_be(bytes, cur, 2)?;
            let x = Value::U16(v as u16);
            proof {
                assert(bytes@.subrange(at as int, at2 as int) =~= enc_val(x@));
            }
            Ok((x, at2))
        },
        4u8 => {
            let (v, at2) = read_be(bytes, cur, 4)?;
            let x = Value::I32(sign32(v));
            proof {
                assert(bytes@.subrange(at as int, at2 as int) =~= enc_val(x@));
            }
            Ok((x, at2))
        },
        5u8 => {
            let (v, at2) = read_be(bytes, cur, 4)?;
            let x = Value::U32(v as u32);
            proof {
                assert(bytes@.subrange(at as int, at2 as int) =~= enc_val(x@));
            }
            Ok((x, at2))
        },
        6u8 => {
            let (v, at2) = read_be(bytes, cur, 8)?;
            let x = Value::I64(sign64(v));
            proof {
                assert(bytes@.subrange(at as int, at2 as int) =~= enc_val(x@));
            }
            Ok((x, at2))
        },
        7u8 => {
            let (v, at2) = read_be(bytes, cur, 8)?;
            let x = Value::U64(v as u64);
            proof {
                assert(bytes@.subrange(at as int, at2 as int) =~= enc_val(x@));
            }
            Ok((x, at2))
        },
        8u8 => {
            let (v, at2) = read_be(bytes, cur, 16)?;
            let x = Value::I128(sign128(v));
            proof {
                assert(bytes@.subrange(at as int, at2 as int) =~= enc_val(x@));
            }
            Ok((x, at2))
        },
        9u8 => {
            let (v, at2) = read_be(bytes, cur, 16)?;
            let x = Value::U128(v);
            proof {
                assert(bytes@.subrange(at as int, at2 as int) =~= enc_val(x@));
            }
            Ok((x, at2))
        },
        10u8 => {
            let (v, at2) = read_be(bytes, cur, 8)?;
            let x = Value::Isize(sign_size(v)?);
            proof {
                assert(bytes@.subrange(at as int, at2 as int) =~= enc_val(x@));
            }
            Ok((x, at2))
        },
        11u8 => {
            let (v, at2) = read_be(bytes, cur, 8)?;
            if v > usize::MAX as u128 {
                return Err(DecodeError::Oversize);
            }
            let x = Value::Usize(v as usize);
            proof {
                assert(bytes@.subrange(at as int, at2 as int) =~= enc_val(x@));
            }
            Ok((x, at2))
        },
        12u8 => read_char_value(bytes, at),
        13u8 => {
            let (v, at2) = read_be(bytes, cur, 1)?;
            if v > 1 {
                return Err(DecodeError::UnknownTag);
            }
            let x = Value::Bool(v == 1);
            proof {
                assert(be_byte_rep(v as nat, 1) =~= seq![v as u8]);
                assert(bytes@.subrange(at as int, at2 as int) =~= enc_val(x@));
            }
            Ok((x, at2))
        },
        14u8 => {
            let (v, at2) = read_be(bytes, cur, 16)?;
            let x = Value::Hash(v);
            proof {
                assert(bytes@.subrange(at as int, at2 as int) =~= enc_val(x@));
            }
            Ok((x, at2))
        },
        15u8 => {
            let (s, at2) = read_string(bytes, cur)?;
            let x = Value::String(s);
            proof {
                assert(bytes@.subrange(at as int, at2 as int) =~= enc_val(x@));
            }
            Ok((x, at2))
        },
        _ => Err(DecodeError::UnknownTag),
    }
}

/// Reads one value: a tag byte, then its payload.
#[verifier::rlimit(100)]
fn read_value(bytes: &Vec<u8>, at: usize) -> (r: Result<(Value, usize), DecodeError>)
    requires
        at <= bytes@.len(),
    ensures
        match r {
            Ok((x, at2)) => {
                &&& at < at2 <= bytes@.len()
                &&& bytes@.subrange(at as int, at2 as int) == enc_val(x@)
            },
            Err(_) => true,
        },
    decreases bytes@.len() - at,
{
    if at >= bytes.len() {
        return Err(DecodeError::Truncated);
    }
    let tag = bytes[at];
    if tag != 16 {
        return read_scalar_value(bytes, at, tag);
    }
    let cur = at + 1;
    proof {
        assert(bytes@.subrange(at as int, at as int + 1) =~= seq![bytes@[at as int]]);
    }
    let (n, mut pos) = read_len(bytes, cur)?;
    let mut elems: Vec<Value> = Vec::new();
    let mut j: usize = 0;
    while j < n
        invariant
            cur == at + 1,
            at + 9 <= pos <= bytes@.len(),
            j <= n,
            elems@.len() == j,
            bytes@.subrange(cur as int, cur + 8) == enc_len(n as nat),
            bytes@.subrange(cur + 8, pos as int) == enc_vals_body(
                crate::parser::vals_view(elems@),
            ),
        decreases n - j,
    {
        let ghost prev = crate::parser::vals_view(elems@);
        let ghost pos0 = pos;
        let (e, pos2) = match read_value(bytes, pos) {
            Err(err) => {
                return Err(err);
            },
            Ok(x) => x,
        };
        elems.push(e);
        proof {
            assert(crate::parser::vals_view(elems@).drop_last() =~= prev);
            assert(crate::parser::vals_view(elems@).last() == e@);
            assert(enc_vals_body(crate::parser::vals_view(elems@)) == enc_vals_body(prev)
                + enc_val(e@));
            assert(bytes@.subrange(cur + 8, pos2 as int) =~= bytes@.subrange(
                cur + 8,
                pos0 as int,
            ) + bytes@.subrange(pos0 as int, pos2 as int));
        }
        pos = pos2;
        j = j + 1;
    }
    let x = Value::Container(elems);
    proof {
        assert(x@->Cont_0 =~= crate::parser::vals_view(x->Container_0@));
        assert(enc_val_payload(x@) == enc_len(x@->Cont_0.len()) + enc_vals_body(x@->Cont_0));
        assert(bytes@.subrange(cur as int, pos as int) =~= bytes@.subrange(at as int + 1, cur + 8)
            + bytes@.subrange(cur + 8, pos as int));
        assert(bytes@.subrange(at as int, pos as int) =~= bytes@.subrange(
            at as int,
            at as int + 1,
        ) + bytes@.subrange(at as int + 1, pos as int));
        assert(bytes@.subrange(at as int, pos as int) =~= enc_val(x@));
    }
    Ok((x, pos))
}

} // verus!



verus! {

/// Reads one instruction: a tag byte, then its operand.
#[verifier::rlimit(100)]
fn read_instr(bytes: &Vec<u8>, at: usize) -> (r: Result<(Instr, usize), DecodeError>)
    requires
        at <= bytes@.len(),
    ensures
        match r {
            Ok((i, at2)) => {
                &&& at < at2 <= bytes@.len()
                &&& bytes@.subrange(at as int, at2 as int) == enc_instr(i@)
            },
            Err(_) => true,
        },
{
    if at >= bytes.len() {
        return Err(DecodeError::Truncated);
    }
    let total = bytes.len();
    let tag = bytes[at];
    let cur = at + 1;
    proof {
        assert(bytes@.subrange(at as int, at as int + 1) =~= seq![bytes@[at as int]]);
    }
    if tag <= 3 || (tag >= 12 && tag <= 20) {
        let (n, at2) = read_len(bytes, cur)?;
        let i = match tag {
            0u8 => Instr::LoadArg(n),
            1u8 => Instr::LoadLocal(n),
            2u8 => Instr::LoadLit(n),
            3u8 => Instr::StoreLocal(n),
            12u8 => Instr::Jump(n),
            13u8 => Instr::JumpT(n),
            14u8 => Instr::JumpF(n),
            15u8 => Instr::JumpEq(n),
            16u8 => Instr::JumpNe(n),
            17u8 => Instr::JumpGt(n),
            18u8 => Instr::JumpGe(n),
            19u8 => Instr::JumpLt(n),
            _ => Instr::JumpLe(n),
        };
        proof {
            assert(bytes@.subrange(at as int, at2 as int) =~= bytes@.subrange(
                at as int,
                cur as int,
            ) + bytes@.subrange(cur as int, at2 as int));
            assert(bytes@.subrange(at as int, at2 as int) =~= enc_instr(i@));
        }
        return Ok((i, at2));
    }
    if tag == 6 {
        let (h, at2) = read_be(bytes, cur, 16)?;
        let i = Instr::LoadFunc(h);
        proof {
            lemma_pow256_values();
            assert(bytes@.subrange(at as int, at2 as int) =~= bytes@.subrange(
                at as int,
                cur as int,
            ) + bytes@.subrange(cur as int, at2 as int));
            assert(bytes@.subrange(at as int, at2 as int) =~= enc_instr(i@));
        }
        return Ok((i, at2));
    }
    if tag == 7 {
        let (s, at2) = read_string(bytes, cur)?;
        let i = Instr::LoadDyn(s);
        proof {
            assert(bytes@.subrange(at as int, at2 as int) =~= bytes@.subrange(
                at as int,
                cur as int,
            ) + bytes@.subrange(cur as int, at2 as int));
            assert(bytes@.subrange(at as int, at2 as int) =~= enc_instr(i@));
        }
        return Ok((i, at2));
    }
    let i = match tag {
        4u8 => Instr::Pop,
        5u8 => Instr::Dup,
        8u8 => Instr::Call,
        9u8 => Instr::CallSelf,
        10u8 => Instr::Return,
        11u8 => Instr::ReturnVal,
        21u8 => Instr::BinOp(BinOp::Add),
        22u8 => Instr::BinOp(BinOp::Mul),
        23u8 => Instr::BinOp(BinOp::Div),
        24u8 => Instr::BinOp(BinOp::Sub),
        25u8 => Instr::BinOp(BinOp::Mod),
        26u8 => Instr::BinOp(BinOp::Shl),
        27u8 => Instr::BinOp(BinOp::Shr),
        28u8 => Instr::BinOp(BinOp::And),
        29u8 => Instr::BinOp(BinOp::Or),
        30u8 => Instr::BinOp(BinOp::Eq),
        31u8 => Instr::UnaryOp(UnaryOp::Not),
        32u8 => Instr::UnaryOp(UnaryOp::Neg),
        33u8 => Instr::Dbg,
        34u8 => Instr::Nop,
        _ => {
            return Err(DecodeError::UnknownTag);
        },
    };
    proof {
        assert(bytes@.subrange(at as int, cur as int) =~= enc_instr(i@));
    }
    Ok((i, cur))
}

} // verus!

verus! {

/// Decodes a code object from its serialized form. Sound against the
/// encoding: whatever comes back re-encodes to exactly the bytes read,
/// so decoding the serialization of an object yields one with the very
/// same serialized form, hash included.
#[verifier::rlimit(100)]
pub fn decode_code_object(bytes: &Vec<u8>) -> (r: Result<CodeObject, DecodeError>)
    ensures
        match r {
            Ok(o) => encode_obj(o@) == bytes@,
            Err(_) => true,
        },
{
    let (argcount, cur0) = read_len(bytes, 0)?;
    let (nlits, mut cur) = read_len(bytes, cur0)?;
    let ghost lits_start = cur;
    let mut litpool: Vec<Value> = Vec::new();
    let mut j: usize = 0;
    while j < nlits
        invariant
            lits_start <= cur <= bytes@.len(),
            j <= nlits,
            litpool@.len() == j,
            bytes@.subrange(lits_start as int, cur as int) == enc_vals_body(
                crate::parser::vals_view(litpool@),
            ),
        decreases nlits - j,
    {
        let ghost prev = crate::parser::vals_view(litpool@);
        let ghost c0 = cur;
        let (v, c2) = match read_value(bytes, cur) {
            Err(e) => {
                return Err(e);
            },
            Ok(x) => x,
        };
        litpool.push(v);
        proof {
            assert(crate::parser::vals_view(litpool@).drop_last() =~= prev);
            assert(crate::parser::vals_view(litpool@).last() == v@);
            assert(enc_vals_body(crate::parser::vals_view(litpool@)) == enc_vals_body(prev)
                + enc_val(v@));
            assert(bytes@.subrange(lits_start as int, c2 as int) =~= bytes@.subrange(
                lits_start as int,
                c0 as int,
            ) + bytes@.subrange(c0 as int, c2 as int));
        }
        cur = c2;
        j = j + 1;
    }
    let (nnames, cur1) = read_len(bytes, cur)?;
    let ghost lits_end = cur;
    let ghost names_start = cur1;
    cur = cur1;
    let mut localnames: Vec<String> = Vec::new();
    let ghost namesv = Seq::<Seq<char>>::empty();
    let mut k: usize = 0;
    while k < nnames
        invariant
            names_start <= cur <= bytes@.len(),
            k <= nnames,
            localnames@.len() == k,
            bytes@.subrange(names_start as int, cur as int) == enc_names_body(
                names_seq(localnames@),
            ),
        decreases nnames - k,
    {
        let ghost prev = names_seq(localnames@);
        let ghost c0 = cur;
        let (s, c2) = match read_string(bytes, cur) {
            Err(e) => {
                return Err(e);
            },
            Ok(x) => x,
        };
        localnames.push(s);
        proof {
            assert(names_seq(localnames@).drop_last() =~= prev);
            assert(names_seq(localnames@).last() == localnames@.last()@);
            assert(enc_names_body(names_seq(localnames@)) == enc_names_body(prev) + enc_chars(
                localnames@.last()@,
            ));
            assert(bytes@.subrange(names_start as int, c2 as int) =~= bytes@.subrange(
                names_start as int,
                c0 as int,
            ) + bytes@.subrange(c0 as int, c2 as int));
        }
        cur = c2;
        k = k + 1;
    }
    let (nlabels, cur2) = read_len(bytes, cur)?;
    let ghost names_end = cur;
    let ghost labels_start = cur2;
    cur = cur2;
    let mut labels: Vec<usize> = Vec::new();
    let mut t: usize = 0;
    while t < nlabels
        invariant
            labels_start <= cur <= bytes@.len(),
            t <= nlabels,
            labels@.len() == t,
            bytes@.subrange(labels_start as int, cur as int) == enc_labels_body(labels@),
        decreases nlabels - t,
    {
        let ghost prev = labels@;
        let ghost c0 = cur;
        let (off, c2) = match read_len(bytes, cur) {
            Err(e) => {
                return Err(e);
            },
            Ok(x) => x,
        };
        labels.push(off);
        proof {
            assert(labels@.drop_last() =~= prev);
            assert(enc_labels_body(labels@) == enc_labels_body(prev) + enc_len(off as nat));
            assert(bytes@.subrange(labels_start as int, c2 as int) =~= bytes@.subrange(
                labels_start as int,
                c0 as int,
            ) + bytes@.subrange(c0 as int, c2 as int));
        }
        cur = c2;
        t = t + 1;
    }
    let (ncode, cur3) = read_len(bytes, cur)?;
    let ghost labels_end = cur;
    let ghost code_start = cur3;
    cur = cur3;
    let mut code: Vec<Instr> = Vec::new();
    let mut w: usize = 0;
    while w < ncode
        invariant
            code_start <= cur <= bytes@.len(),
            w <= ncode,
            code@.len() == w,
            bytes@.subrange(code_start as int, cur as int) == enc_instrs_body(
                Bytecode::new_view(code@),
            ),
        decreases ncode - w,
    {
        let ghost prev = Bytecode::new_view(code@);
        let ghost c0 = cur;
        let (ins, c2) = match read_instr(bytes, cur) {
            Err(e) => {
                return Err(e);
            },
            Ok(x) => x,
        };
        code.push(ins);
        proof {
            assert(Bytecode::new_view(code@).drop_last() =~= prev);
            assert(Bytecode::new_view(code@).last() == code@.last()@);
            assert(enc_instrs_body(Bytecode::new_view(code@)) == enc_instrs_body(prev)
                + enc_instr(code@.last()@));
            assert(bytes@.subrange(code_start as int, c2 as int) =~= bytes@.subrange(
                code_start as int,
                c0 as int,
            ) + bytes@.subrange(c0 as int, c2 as int));
        }
        cur = c2;
        w = w + 1;
    }
    if cur != bytes.len() {
        return Err(DecodeError::TrailingBytes);
    }
    let o = CodeObject { litpool, argcount, localnames, labels, code: Bytecode::new(code) };
    proof {
        assert(o@.litpool =~= crate::parser::vals_view(o.litpool@));
        assert(o@.localnames =~= names_seq(o.localnames@));
        assert(encode_obj(o@) =~= bytes@) by {
            assert(bytes@.subrange(0, cur0 as int) == enc_len(o@.argcount as nat));
            assert(bytes@.subrange(cur0 as int, lits_start as int) == enc_len(
                o@.litpool.len(),
            ));
            assert(bytes@.subrange(lits_start as int, lits_end as int) == enc_vals_body(
                o@.litpool,
            ));
            assert(bytes@.subrange(lits_end as int, names_start as int) == enc_len(
                o@.localnames.len(),
            ));
            assert(bytes@.subrange(names_start as int, names_end as int) == enc_names_body(
                o@.localnames,
            ));
            assert(bytes@.subrange(names_end as int, labels_start as int) == enc_len(
                o@.labels.len(),
            ));
            assert(bytes@.subrange(labels_start as int, labels_end as int) == enc_labels_body(
                o@.labels,
            ));
            assert(bytes@.subrange(labels_end as int, code_start as int) == enc_len(
                o@.code.len(),
            ));
            assert(bytes@.subrange(code_start as int, cur as int) == enc_instrs_body(o@.code));
            assert(bytes@ =~= bytes@.subrange(0, cur0 as int) + bytes@.subrange(
                cur0 as int,
                lits_start as int,
            ) + bytes@.subrange(lits_start as int, lits_end as int) + bytes@.subrange(
                lits_end as int,
                names_start as int,
            ) + bytes@.subrange(names_start as int, names_end as int) + bytes@.subrange(
                names_end as int,
                labels_start as int,
            ) + bytes@.subrange(labels_start as int, labels_end as int) + bytes@.subrange(
                labels_end as int,
                code_start as int,
            ) + bytes@.subrange(code_start as int, cur as int));
        }
    }
    Ok(o)
}

/// The views of a vector of strings.
pub open spec fn names_seq(v: Seq<String>) -> Seq<Seq<char>> {
    Seq::new(
        v.len(),
        |i: int|
            if 0 <= i < v.len() {
                v[i]@
            } else {
                Seq::empty()
            },
    )
}

} // verus!
