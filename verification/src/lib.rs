//! A stack-based bytecode virtual machine with a content-addressed code
//! store: an assembler and disassembler for a line-oriented assembly
//! language, a link pass that rewrites symbolic references into hash
//! references in dependency order, and an execution engine with bounded
//! operand and call stacks.

use vstd::prelude::*;

pub mod bytecode;
pub mod commands;
pub mod decode;
pub mod depgraph;
pub mod dis;
pub mod hashing;
pub mod object;
pub mod ops;
pub mod parser;
pub mod resolve_dyn;
pub mod store;
pub mod text;
pub mod toposort;
pub mod value;
pub mod vm;

use crate::hashing::{bytes_be_val, hex_bytes_of, lemma_pow256_values};
use crate::text::{chars_of, hex_digit_val, hex_val};

verus! {

/// Number of bytes in a code-object hash: the truncated prefix of the
/// SHA-512 digest of the serialized object.
pub const HASH_SIZE: usize = 16;

/// A code-object hash, packed big-endian into a single wide integer:
/// byte 0 of the digest is the most significant byte.
pub type CodeHash = u128;

/// A fatal error during one step of execution. Every kind aborts the
/// execution in progress and surfaces to the caller of the run entry
/// point.
#[derive(Debug, Clone, Copy, PartialEq, Eq, Structural)]
pub enum VmError {
    /// An instruction needed more operands than the stack holds.
    StackUnderflow,
    /// A push would exceed the operand-stack cap.
    OperandStackOverflow,
    /// A call would exceed the call-stack cap.
    CallStackOverflow,
    /// An argument index at or past the arity.
    ArgIndexOutOfBounds,
    /// A local index past the named locals.
    LocalIndexOutOfBounds,
    /// A literal-pool index past the pool.
    LitIndexOutOfBounds,
    /// A label id past the label table.
    LabelIndexOutOfBounds,
    /// A read of a local that was never stored.
    UninitializedLocal,
    /// An operator applied across variants it is not defined on.
    TypeMismatch,
    /// An arithmetic result outside its variant's range.
    ArithmeticOverflow,
    /// Division or remainder by zero.
    DivisionByZero,
    /// A shift amount negative or at least the operand's width.
    ShiftOutOfRange,
    /// A `Call` target hash absent from the store.
    UnknownHash,
    /// A `LoadDyn` name absent from the store.
    UnknownName,
    /// A call found fewer arguments on the stack than the callee's arity.
    InsufficientArguments,
    /// The entry function returned something other than a 32-bit signed
    /// integer.
    NonIntegerMainReturn,
    /// The step budget was exhausted before the program finished; the
    /// entry points run with an effectively unbounded budget.
    OutOfFuel,
}

/// Why a hash could not be built from the given text or bytes.
#[derive(Debug, Clone, Copy, PartialEq, Eq, Structural)]
pub enum HashError {
    /// Fewer bytes than a hash holds.
    TooShort,
    /// The text does not start with `0x`.
    MissingPrefix,
    /// A character after `0x` is not a hexadecimal digit, or the digits
    /// do not pair into whole bytes.
    InvalidHex,
    /// The digits denote a byte string of the wrong length.
    WrongLength,
}

/// True when `c` may start a name: a letter or an underscore.
pub open spec fn is_name_start(c: char) -> bool {
    ('a' <= c && c <= 'z') || ('A' <= c && c <= 'Z') || c == '_'
}

/// True when `c` may continue a name: a letter, a digit or an underscore.
pub open spec fn is_name_char(c: char) -> bool {
    is_name_start(c) || ('0' <= c && c <= '9')
}

/// A valid name for a code object: nonempty, starting with a letter or
/// underscore, continuing with letters, digits and underscores.
pub open spec fn valid_name(s: Seq<char>) -> bool {
    &&& s.len() > 0
    &&& is_name_start(s[0])
    &&& forall|i: int| 0 < i < s.len() ==> is_name_char(#[trigger] s[i])
}

/// Determine if `name` is a valid name for a code object.
pub fn is_valid_name(name: &str) -> (r: bool)
    ensures
        r == valid_name(name@),
{
    let cs = chars_of(name);
    if cs.len() == 0 {
        return false;
    }
    let c0 = cs[0];
    if !(('a' <= c0 && c0 <= 'z') || ('A' <= c0 && c0 <= 'Z') || c0 == '_') {
        return false;
    }
    let mut k: usize = 1;
    while k < cs.len()
        invariant
            1 <= k <= cs@.len(),
            cs@ == name@,
            is_name_start(cs@[0]),
            forall|i: int| 0 < i < k ==> is_name_char(#[trigger] cs@[i]),
        decreases cs.len() - k,
    {
        let c = cs[k];
        if !(('a' <= c && c <= 'z') || ('A' <= c && c <= 'Z') || c == '_' || ('0' <= c && c
            <= '9')) {
            return false;
        }
        k = k + 1;
    }
    true
}

/// Builds a hash from raw digest bytes, keeping the first 16. Succeeds
/// exactly when at least 16 bytes are given.
pub fn hash_from_vec(hash: Vec<u8>) -> (r: Result<CodeHash, HashError>)
    ensures
        match r {
            Ok(h) => hash@.len() >= 16 && h == bytes_be_val(hash@.take(16)),
            Err(e) => hash@.len() < 16 && e == HashError::TooShort,
        },
{
    if hash.len() < 16 {
        return Err(HashError::TooShort);
    }
    Ok(hashing::bytes_to_u128(&hash))
}

/// Builds a hash from text of the form `0x` followed by 32 hexadecimal
/// digits. Succeeds exactly on that form; the value packs the denoted
/// bytes big-endian.
pub fn hash_from_str(hash_str: &str) -> (r: Result<CodeHash, HashError>)
    ensures
        match r {
            Ok(h) => {
                &&& hash_str@.len() == 34
                &&& hash_str@[0] == '0' && hash_str@[1] == 'x'
                &&& (forall|i: int|
                    2 <= i < 34 ==> hex_digit_val(#[trigger] hash_str@[i]) >= 0)
                &&& h == bytes_be_val(hex_bytes_of(hash_str@.skip(2)))
            },
            Err(e) => {
                match e {
                    HashError::MissingPrefix => hash_str@.len() < 2 || hash_str@[0] != '0'
                        || hash_str@[1] != 'x',
                    HashError::InvalidHex => {
                        &&& hash_str@.len() >= 2
                        &&& hash_str@[0] == '0' && hash_str@[1] == 'x'
                        &&& ((hash_str@.len() % 2) != 0 || exists|i: int|
                            2 <= i < hash_str@.len() && hex_digit_val(
                                #[trigger] hash_str@[i],
                            ) < 0)
                    },
                    HashError::WrongLength => {
                        &&& hash_str@.len() >= 2 && hash_str@.len() != 34
                        &&& hash_str@[0] == '0' && hash_str@[1] == 'x'
                        &&& (hash_str@.len() % 2) == 0
                        &&& forall|i: int|
                            2 <= i < hash_str@.len() ==> hex_digit_val(
                                #[trigger] hash_str@[i],
                            ) >= 0
                    },
                    _ => false,
                }
            },
        },
{
    let cs = chars_of(hash_str);
    if cs.len() < 2 || cs[0] != '0' || cs[1] != 'x' {
        return Err(HashError::MissingPrefix);
    }
    if cs.len() % 2 != 0 {
        return Err(HashError::InvalidHex);
    }
    let mut k: usize = 2;
    while k < cs.len()
        invariant
            2 <= k <= cs@.len(),
            cs@ == hash_str@,
            cs@[0] == '0' && cs@[1] == 'x',
            cs@.len() % 2 == 0,
            forall|i: int| 2 <= i < k ==> hex_digit_val(#[trigger] cs@[i]) >= 0,
        decreases cs.len() - k,
    {
        if hex_val(cs[k]) < 0 {
            proof {
                assert(hex_digit_val(hash_str@[k as int]) < 0);
            }
            return Err(HashError::InvalidHex);
        }
        k = k + 1;
    }
    if cs.len() != 34 {
        return Err(HashError::WrongLength);
    }
    let mut acc: u128 = 0;
    let mut j: usize = 0;
    let ghost digits = hash_str@.skip(2);
    while j < 16
        invariant
            j <= 16,
            cs@ == hash_str@,
            cs@.len() == 34,
            digits == hash_str@.skip(2),
            forall|i: int| 2 <= i < 34 ==> hex_digit_val(#[trigger] cs@[i]) >= 0,
            acc == bytes_be_val(hex_bytes_of(digits).take(j as int)),
            acc < hashing::pow256(j as nat),
        decreases 16 - j,
    {
        let d0 = hex_val(cs[2 * j + 2]);
        let d1 = hex_val(cs[2 * j + 3]);
        proof {
            lemma_pow256_values();
            assert(hex_digit_val(cs@[2 * (j as int) + 2]) >= 0);
            assert(hex_digit_val(cs@[2 * (j as int) + 3]) >= 0);
            assert(digits[2 * (j as int)] == cs@[2 * (j as int) + 2]);
            assert(digits[2 * (j as int) + 1] == cs@[2 * (j as int) + 3]);
            assert(hex_bytes_of(digits).take(j as int + 1).drop_last() =~= hex_bytes_of(
                digits,
            ).take(j as int));
            assert(hex_bytes_of(digits).take(j as int + 1).last() == hex_bytes_of(digits)[
                j as int]);
            if j < 15 {
                hashing::lemma_pow256_le_15(j as nat);
            }
        }
        let byte: u128 = (d0 as u128) * 16 + (d1 as u128);
        acc = acc * 256 + byte;
        j = j + 1;
    }
    proof {
        assert(hex_bytes_of(digits).take(16) =~= hex_bytes_of(digits));
    }
    Ok(acc)
}

} // verus!
