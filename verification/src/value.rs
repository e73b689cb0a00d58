//! The tagged value type that lives on the operand stack, with its
//! mathematical view and the semantics of the operators the machine
//! applies to it.

use vstd::prelude::*;
use crate::{CodeHash, HashError};
use crate::hashing::bytes_be_val;

verus! {

broadcast use vstd::std_specs::vec::group_vec_axioms, vstd::seq::axiom_seq_index_decreases;

/// A value that can be on the operand stack.
#[derive(Debug, PartialEq)]
pub enum Value {
    I8(i8),
    U8(u8),
    I16(i16),
    U16(u16),
    I32(i32),
    U32(u32),
    I64(i64),
    U64(u64),
    I128(i128),
    U128(u128),
    Isize(isize),
    Usize(usize),
    Char(char),
    Bool(bool),
    Hash(CodeHash),
    String(String),
    Container(Vec<Value>),
}

/// The mathematical shape of a [`Value`]: identical tags, with text as a
/// character sequence and containers as sequences.
pub enum ValV {
    I8(i8),
    U8(u8),
    I16(i16),
    U16(u16),
    I32(i32),
    U32(u32),
    I64(i64),
    U64(u64),
    I128(i128),
    U128(u128),
    Isize(isize),
    Usize(usize),
    Char(char),
    Bool(bool),
    Hash(u128),
    Str(Seq<char>),
    Cont(Seq<ValV>),
}

/// The view of a value, case by case.
pub open spec fn val_view(v: Value) -> ValV
    decreases v,
{
    match v {
        Value::I8(x) => ValV::I8(x),
        Value::U8(x) => ValV::U8(x),
        Value::I16(x) => ValV::I16(x),
        Value::U16(x) => ValV::U16(x),
        Value::I32(x) => ValV::I32(x),
        Value::U32(x) => ValV::U32(x),
        Value::I64(x) => ValV::I64(x),
        Value::U64(x) => ValV::U64(x),
        Value::I128(x) => ValV::I128(x),
        Value::U128(x) => ValV::U128(x),
        Value::Isize(x) => ValV::Isize(x),
        Value::Usize(x) => ValV::Usize(x),
        Value::Char(c) => ValV::Char(c),
        Value::Bool(b) => ValV::Bool(b),
        Value::Hash(h) => ValV::Hash(h),
        Value::String(s) => ValV::Str(s@),
        Value::Container(vec) => ValV::Cont(
            Seq::new(
                vec@.len(),
                |i: int|
                    if 0 <= i < vec@.len() {
                        val_view(vec@[i])
                    } else {
                        ValV::Bool(false)
                    },
            ),
        ),
    }
}

impl View for Value {
    type V = ValV;

    open spec fn view(&self) -> ValV {
        val_view(*self)
    }
}

impl Value {
    /// The conventional integer value: a 32-bit signed integer.
    pub fn int32(i: i32) -> (r: Value)
        ensures
            r@ == ValV::I32(i),
    {
        Value::I32(i)
    }

    /// A string value holding the given text.
    pub fn string(s: &str) -> (r: Value)
        ensures
            r@ == (ValV::Str(s@)),
    {
        Value::String(s.to_owned())
    }

    /// A hash value built from raw digest bytes; fails when fewer than 16
    /// bytes are given.
    pub fn hash(hash: Vec<u8>) -> (r: Result<Value, HashError>)
        ensures
            match r {
                Ok(v) => hash@.len() >= 16 && v@ == (ValV::Hash(
                    bytes_be_val(hash@.take(16)) as u128,
                )),
                Err(e) => hash@.len() < 16 && e == HashError::TooShort,
            },
    {
        let trunc = crate::hash_from_vec(hash)?;
        Ok(Value::Hash(trunc))
    }
}

/// Truthiness: numeric zero, `false`, the NUL character, the empty string
/// and the empty container are falsy; every other value, hashes included,
/// is truthy.
pub open spec fn truthy(v: ValV) -> bool {
    match v {
        ValV::I8(x) => x != 0,
        ValV::U8(x) => x != 0,
        ValV::I16(x) => x != 0,
        ValV::U16(x) => x != 0,
        ValV::I32(x) => x != 0,
        ValV::U32(x) => x != 0,
        ValV::I64(x) => x != 0,
        ValV::U64(x) => x != 0,
        ValV::I128(x) => x != 0,
        ValV::U128(x) => x != 0,
        ValV::Isize(x) => x != 0,
        ValV::Usize(x) => x != 0,
        ValV::Char(c) => c != '\0',
        ValV::Bool(b) => b,
        ValV::Hash(_) => true,
        ValV::Str(s) => s.len() > 0,
        ValV::Cont(s) => s.len() > 0,
    }
}

impl Value {
    /// Truthy and falsy values.
    pub fn is_truthy(&self) -> (r: bool)
        ensures
            r == truthy(self@),
    {
        value_truthy(self)
    }

    /// `And` of two operands under truthiness: the right operand when both
    /// are truthy, otherwise the first falsy one.
    pub fn and(self, other: Self) -> (r: Value)
        ensures
            r@ == (if !truthy(self@) {
                self@
            } else {
                other@
            }),
    {
        let left_truthy = self.is_truthy();
        if !left_truthy {
            self
        } else {
            other
        }
    }

    /// `Or` of two operands under truthiness: the first truthy operand,
    /// otherwise the right one.
    pub fn or(self, other: Self) -> (r: Value)
        ensures
            r@ == (if truthy(self@) {
                self@
            } else {
                other@
            }),
    {
        let left_truthy = self.is_truthy();
        if left_truthy {
            self
        } else {
            other
        }
    }
}

impl Clone for Value {
    /// A deep copy with the same view.
    #[verifier::rlimit(100)]
    fn clone(&self) -> (r: Value)
        ensures
            r@ == self@,
        decreases self,
    {
        match self {
            Value::I8(x) => Value::I8(*x),
            Value::U8(x) => Value::U8(*x),
            Value::I16(x) => Value::I16(*x),
            Value::U16(x) => Value::U16(*x),
            Value::I32(x) => Value::I32(*x),
            Value::U32(x) => Value::U32(*x),
            Value::I64(x) => Value::I64(*x),
            Value::U64(x) => Value::U64(*x),
            Value::I128(x) => Value::I128(*x),
            Value::U128(x) => Value::U128(*x),
            Value::Isize(x) => Value::Isize(*x),
            Value::Usize(x) => Value::Usize(*x),
            Value::Char(c) => Value::Char(*c),
            Value::Bool(b) => Value::Bool(*b),
            Value::Hash(h) => Value::Hash(*h),
            Value::String(s) => Value::String(s.clone()),
            Value::Container(v) => {
                let mut out: Vec<Value> = Vec::new();
                let mut k: usize = 0;
                while k < v.len()
                    invariant
                        k <= v@.len(),
                        self == Value::Container(*v),
                        out@.len() == k,
                        forall|i: int| 0 <= i < k ==> #[trigger] out[i]@ == v[i]@,
                    decreases v@.len() - k,
                {
                    proof {
                        assert(self->Container_0 == *v);
                        assert(decreases_to!(*self => self->Container_0));
                        assert(decreases_to!(*v => v@));
                        assert(decreases_to!(v@ => v@[k as int]));
                        assert(decreases_to!(*self => v@[k as int]));
                    }
                    out.push(v[k].clone());
                    k = k + 1;
                }
                let result = Value::Container(out);
                proof {
                    assert(forall|i: int|
                        0 <= i < out@.len() ==> #[trigger] result@->Cont_0[i] == out[i]@);
                    assert(forall|i: int|
                        0 <= i < v@.len() ==> #[trigger] self@->Cont_0[i] == v[i]@);
                    assert(result@->Cont_0 =~= self@->Cont_0);
                }
                result
            },
        }
    }
}

/// Structural equality on values.
pub fn eq_value(a: &Value, b: &Value) -> (r: bool)
    ensures
        r == (a@ == b@),
    decreases a,
{
    match (a, b) {
        (Value::I8(x), Value::I8(y)) => x == y,
        (Value::U8(x), Value::U8(y)) => x == y,
        (Value::I16(x), Value::I16(y)) => x == y,
        (Value::U16(x), Value::U16(y)) => x == y,
        (Value::I32(x), Value::I32(y)) => x == y,
        (Value::U32(x), Value::U32(y)) => x == y,
        (Value::I64(x), Value::I64(y)) => x == y,
        (Value::U64(x), Value::U64(y)) => x == y,
        (Value::I128(x), Value::I128(y)) => x == y,
        (Value::U128(x), Value::U128(y)) => x == y,
        (Value::Isize(x), Value::Isize(y)) => x == y,
        (Value::Usize(x), Value::Usize(y)) => x == y,
        (Value::Char(x), Value::Char(y)) => x == y,
        (Value::Bool(x), Value::Bool(y)) => x == y,
        (Value::Hash(x), Value::Hash(y)) => x == y,
        (Value::String(x), Value::String(y)) => *x == *y,
        (Value::Container(x), Value::Container(y)) => {
            if x.len() != y.len() {
                assert(a@->Cont_0.len() != b@->Cont_0.len());
                return false;
            }
            let mut k: usize = 0;
            while k < x.len()
                invariant
                    k <= x@.len(),
                    x@.len() == y@.len(),
                    a == Value::Container(*x),
                    b == Value::Container(*y),
                    forall|i: int| 0 <= i < k ==> #[trigger] x[i]@ == y[i]@,
                decreases x@.len() - k,
            {
                let same = eq_value(&x[k], &y[k]);
                if !same {
                    assert(a@->Cont_0[k as int] != b@->Cont_0[k as int]);
                    return false;
                }
                k = k + 1;
            }
            proof {
                assert(forall|i: int|
                    0 <= i < x@.len() ==> #[trigger] a@->Cont_0[i] == x[i]@);
                assert(forall|i: int|
                    0 <= i < y@.len() ==> #[trigger] b@->Cont_0[i] == y[i]@);
                assert(a@->Cont_0 =~= b@->Cont_0);
            }
            true
        },
        _ => {
            assert(a@ != b@);
            false
        },
    }
}

} // verus!


verus! {

/// Truthiness of a value: the executable twin of [`truthy`].
#[verifier::rlimit(100)]
pub fn value_truthy(v: &Value) -> (r: bool)
    ensures
        r == truthy(v@),
{
    match v {
        Value::I8(x) => {
            assert(truthy(v@) == (v->I8_0 != 0));
            *x != 0
        },
        Value::U8(x) => *x != 0,
        Value::I16(x) => *x != 0,
        Value::U16(x) => *x != 0,
        Value::I32(x) => *x != 0,
        Value::U32(x) => *x != 0,
        Value::I64(x) => *x != 0,
        Value::U64(x) => *x != 0,
        Value::I128(x) => *x != 0,
        Value::U128(x) => *x != 0,
        Value::Isize(x) => *x != 0,
        Value::Usize(x) => *x != 0,
        Value::Char(c) => *c != '\0',
        Value::Bool(b) => *b,
        Value::Hash(_) => true,
        Value::String(s) => {
            assert(truthy(v@) == (v->String_0@.len() > 0));
            !s.as_str().is_empty()
        },
        Value::Container(v2) => {
            assert(truthy(v@) == (v@->Cont_0.len() > 0));
            assert(v@->Cont_0.len() == v2@.len());
            v2.len() != 0
        },
    }
}

} // verus!

