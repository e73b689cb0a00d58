//! The operator layer: exact semantics for every arithmetic, logical and
//! comparison instruction, stated over value views and implemented with
//! checked machine arithmetic.

use vstd::prelude::*;
use vstd::string::StringExecFns;
use crate::VmError;
use crate::value::{Value, ValV, eq_value};
use crate::text::chars_of;

verus! {

/// The view of an operator result.
pub open spec fn res_view(r: Result<Value, VmError>) -> Result<ValV, VmError> {
    match r {
        Ok(v) => Ok(v@),
        Err(e) => Err(e),
    }
}

/// `s` repeated `k` times (empty when `k` is not positive).
pub open spec fn repeat_chars(s: Seq<char>, k: int) -> Seq<char>
    decreases k,
{
    if k <= 0 {
        Seq::empty()
    } else {
        repeat_chars(s, k - 1) + s
    }
}

/// Addition: same-variant integers with overflow checked; `+` on two
/// strings is concatenation.
pub open spec fn add_vals(a: ValV, b: ValV) -> Result<ValV, VmError> {
    match (a, b) {
        (ValV::I8(x), ValV::I8(y)) => if x + y < i8::MIN || x + y > i8::MAX {
            Err(VmError::ArithmeticOverflow)
        } else {
            Ok(ValV::I8((x + y) as i8))
        },
        (ValV::U8(x), ValV::U8(y)) => if x + y < u8::MIN || x + y > u8::MAX {
            Err(VmError::ArithmeticOverflow)
        } else {
            Ok(ValV::U8((x + y) as u8))
        },
        (ValV::I16(x), ValV::I16(y)) => if x + y < i16::MIN || x + y > i16::MAX {
            Err(VmError::ArithmeticOverflow)
        } else {
            Ok(ValV::I16((x + y) as i16))
        },
        (ValV::U16(x), ValV::U16(y)) => if x + y < u16::MIN || x + y > u16::MAX {
            Err(VmError::ArithmeticOverflow)
        } else {
            Ok(ValV::U16((x + y) as u16))
        },
        (ValV::I32(x), ValV::I32(y)) => if x + y < i32::MIN || x + y > i32::MAX {
            Err(VmError::ArithmeticOverflow)
        } else {
            Ok(ValV::I32((x + y) as i32))
        },
        (ValV::U32(x), ValV::U32(y)) => if x + y < u32::MIN || x + y > u32::MAX {
            Err(VmError::ArithmeticOverflow)
        } else {
            Ok(ValV::U32((x + y) as u32))
        },
        (ValV::I64(x), ValV::I64(y)) => if x + y < i64::MIN || x + y > i64::MAX {
            Err(VmError::ArithmeticOverflow)
        } else {
            Ok(ValV::I64((x + y) as i64))
        },
        (ValV::U64(x), ValV::U64(y)) => if x + y < u64::MIN || x + y > u64::MAX {
            Err(VmError::ArithmeticOverflow)
        } else {
            Ok(ValV::U64((x + y) as u64))
        },
        (ValV::I128(x), ValV::I128(y)) => if x + y < i128::MIN || x + y > i128::MAX {
            Err(VmError::ArithmeticOverflow)
        } else {
            Ok(ValV::I128((x + y) as i128))
        },
        (ValV::U128(x), ValV::U128(y)) => if x + y < u128::MIN || x + y > u128::MAX {
            Err(VmError::ArithmeticOverflow)
        } else {
            Ok(ValV::U128((x + y) as u128))
        },
        (ValV::Isize(x), ValV::Isize(y)) => if x + y < isize::MIN || x + y > isize::MAX {
            Err(VmError::ArithmeticOverflow)
        } else {
            Ok(ValV::Isize((x + y) as isize))
        },
        (ValV::Usize(x), ValV::Usize(y)) => if x + y < usize::MIN || x + y > usize::MAX {
            Err(VmError::ArithmeticOverflow)
        } else {
            Ok(ValV::Usize((x + y) as usize))
        },
        (ValV::Str(x), ValV::Str(y)) => Ok(ValV::Str(x + y)),
        _ => Err(VmError::TypeMismatch),
    }
}

/// Subtraction: same-variant integers with overflow checked.
pub open spec fn sub_vals(a: ValV, b: ValV) -> Result<ValV, VmError> {
    match (a, b) {
        (ValV::I8(x), ValV::I8(y)) => if x - y < i8::MIN || x - y > i8::MAX {
            Err(VmError::ArithmeticOverflow)
        } else {
            Ok(ValV::I8((x - y) as i8))
        },
        (ValV::U8(x), ValV::U8(y)) => if x - y < u8::MIN || x - y > u8::MAX {
            Err(VmError::ArithmeticOverflow)
        } else {
            Ok(ValV::U8((x - y) as u8))
        },
        (ValV::I16(x), ValV::I16(y)) => if x - y < i16::MIN || x - y > i16::MAX {
            Err(VmError::ArithmeticOverflow)
        } else {
            Ok(ValV::I16((x - y) as i16))
        },
        (ValV::U16(x), ValV::U16(y)) => if x - y < u16::MIN || x - y > u16::MAX {
            Err(VmError::ArithmeticOverflow)
        } else {
            Ok(ValV::U16((x - y) as u16))
        },
        (ValV::I32(x), ValV::I32(y)) => if x - y < i32::MIN || x - y > i32::MAX {
            Err(VmError::ArithmeticOverflow)
        } else {
            Ok(ValV::I32((x - y) as i32))
        },
        (ValV::U32(x), ValV::U32(y)) => if x - y < u32::MIN || x - y > u32::MAX {
            Err(VmError::ArithmeticOverflow)
        } else {
            Ok(ValV::U32((x - y) as u32))
        },
        (ValV::I64(x), ValV::I64(y)) => if x - y < i64::MIN || x - y > i64::MAX {
            Err(VmError::ArithmeticOverflow)
        } else {
            Ok(ValV::I64((x - y) as i64))
        },
        (ValV::U64(x), ValV::U64(y)) => if x - y < u64::MIN || x - y > u64::MAX {
            Err(VmError::ArithmeticOverflow)
        } else {
            Ok(ValV::U64((x - y) as u64))
        },
        (ValV::I128(x), ValV::I128(y)) => if x - y < i128::MIN || x - y > i128::MAX {
            Err(VmError::ArithmeticOverflow)
        } else {
            Ok(ValV::I128((x - y) as i128))
        },
        (ValV::U128(x), ValV::U128(y)) => if x - y < u128::MIN || x - y > u128::MAX {
            Err(VmError::ArithmeticOverflow)
        } else {
            Ok(ValV::U128((x - y) as u128))
        },
        (ValV::Isize(x), ValV::Isize(y)) => if x - y < isize::MIN || x - y > isize::MAX {
            Err(VmError::ArithmeticOverflow)
        } else {
            Ok(ValV::Isize((x - y) as isize))
        },
        (ValV::Usize(x), ValV::Usize(y)) => if x - y < usize::MIN || x - y > usize::MAX {
            Err(VmError::ArithmeticOverflow)
        } else {
            Ok(ValV::Usize((x - y) as usize))
        },
        _ => Err(VmError::TypeMismatch),
    }
}

/// Multiplication: same-variant integers with overflow checked; a string
/// times a 32-bit integer (in that operand order) is repetition.
pub open spec fn mul_vals(a: ValV, b: ValV) -> Result<ValV, VmError> {
    match (a, b) {
        (ValV::I8(x), ValV::I8(y)) => if x * y < i8::MIN || x * y > i8::MAX {
            Err(VmError::ArithmeticOverflow)
        } else {
            Ok(ValV::I8((x * y) as i8))
        },
        (ValV::U8(x), ValV::U8(y)) => if x * y < u8::MIN || x * y > u8::MAX {
            Err(VmError::ArithmeticOverflow)
        } else {
            Ok(ValV::U8((x * y) as u8))
        },
        (ValV::I16(x), ValV::I16(y)) => if x * y < i16::MIN || x * y > i16::MAX {
            Err(VmError::ArithmeticOverflow)
        } else {
            Ok(ValV::I16((x * y) as i16))
        },
        (ValV::U16(x), ValV::U16(y)) => if x * y < u16::MIN || x * y > u16::MAX {
            Err(VmError::ArithmeticOverflow)
        } else {
            Ok(ValV::U16((x * y) as u16))
        },
        (ValV::I32(x), ValV::I32(y)) => if x * y < i32::MIN || x * y > i32::MAX {
            Err(VmError::ArithmeticOverflow)
        } else {
            Ok(ValV::I32((x * y) as i32))
        },
        (ValV::U32(x), ValV::U32(y)) => if x * y < u32::MIN || x * y > u32::MAX {
            Err(VmError::ArithmeticOverflow)
        } else {
            Ok(ValV::U32((x * y) as u32))
        },
        (ValV::I64(x), ValV::I64(y)) => if x * y < i64::MIN || x * y > i64::MAX {
            Err(VmError::ArithmeticOverflow)
        } else {
            Ok(ValV::I64((x * y) as i64))
        },
        (ValV::U64(x), ValV::U64(y)) => if x * y < u64::MIN || x * y > u64::MAX {
            Err(VmError::ArithmeticOverflow)
        } else {
            Ok(ValV::U64((x * y) as u64))
        },
        (ValV::I128(x), ValV::I128(y)) => if x * y < i128::MIN || x * y > i128::MAX {
            Err(VmError::ArithmeticOverflow)
        } else {
            Ok(ValV::I128((x * y) as i128))
        },
        (ValV::U128(x), ValV::U128(y)) => if x * y < u128::MIN || x * y > u128::MAX {
            Err(VmError::ArithmeticOverflow)
        } else {
            Ok(ValV::U128((x * y) as u128))
        },
        (ValV::Isize(x), ValV::Isize(y)) => if x * y < isize::MIN || x * y > isize::MAX {
            Err(VmError::ArithmeticOverflow)
        } else {
            Ok(ValV::Isize((x * y) as isize))
        },
        (ValV::Usize(x), ValV::Usize(y)) => if x * y < usize::MIN || x * y > usize::MAX {
            Err(VmError::ArithmeticOverflow)
        } else {
            Ok(ValV::Usize((x * y) as usize))
        },
        (ValV::Str(s), ValV::I32(k)) => Ok(ValV::Str(repeat_chars(s, k as int))),
        _ => Err(VmError::TypeMismatch),
    }
}

/// Truncating division: same-variant integers; division by zero and
/// `MIN / -1` are errors.
pub open spec fn div_vals(a: ValV, b: ValV) -> Result<ValV, VmError> {
    match (a, b) {
        (ValV::I8(x), ValV::I8(y)) => match x.checked_div(y) {
            Some(z) => Ok(ValV::I8(z)),
            None => Err(
                if y == 0 {
                    VmError::DivisionByZero
                } else {
                    VmError::ArithmeticOverflow
                },
            ),
        },
        (ValV::U8(x), ValV::U8(y)) => match x.checked_div(y) {
            Some(z) => Ok(ValV::U8(z)),
            None => Err(
                if y == 0 {
                    VmError::DivisionByZero
                } else {
                    VmError::ArithmeticOverflow
                },
            ),
        },
        (ValV::I16(x), ValV::I16(y)) => match x.checked_div(y) {
            Some(z) => Ok(ValV::I16(z)),
            None => Err(
                if y == 0 {
                    VmError::DivisionByZero
                } else {
                    VmError::ArithmeticOverflow
                },
            ),
        },
        (ValV::U16(x), ValV::U16(y)) => match x.checked_div(y) {
            Some(z) => Ok(ValV::U16(z)),
            None => Err(
                if y == 0 {
                    VmError::DivisionByZero
                } else {
                    VmError::ArithmeticOverflow
                },
            ),
        },
        (ValV::I32(x), ValV::I32(y)) => match x.checked_div(y) {
            Some(z) => Ok(ValV::I32(z)),
            None => Err(
                if y == 0 {
                    VmError::DivisionByZero
                } else {
                    VmError::ArithmeticOverflow
                },
            ),
        },
        (ValV::U32(x), ValV::U32(y)) => match x.checked_div(y) {
            Some(z) => Ok(ValV::U32(z)),
            None => Err(
                if y == 0 {
                    VmError::DivisionByZero
                } else {
                    VmError::ArithmeticOverflow
                },
            ),
        },
        (ValV::I64(x), ValV::I64(y)) => match x.checked_div(y) {
            Some(z) => Ok(ValV::I64(z)),
            None => Err(
                if y == 0 {
                    VmError::DivisionByZero
                } else {
                    VmError::ArithmeticOverflow
                },
            ),
        },
        (ValV::U64(x), ValV::U64(y)) => match x.checked_div(y) {
            Some(z) => Ok(ValV::U64(z)),
            None => Err(
                if y == 0 {
                    VmError::DivisionByZero
                } else {
                    VmError::ArithmeticOverflow
                },
            ),
        },
        (ValV::I128(x), ValV::I128(y)) => match x.checked_div(y) {
            Some(z) => Ok(ValV::I128(z)),
            None => Err(
                if y == 0 {
                    VmError::DivisionByZero
                } else {
                    VmError::ArithmeticOverflow
                },
            ),
        },
        (ValV::U128(x), ValV::U128(y)) => match x.checked_div(y) {
            Some(z) => Ok(ValV::U128(z)),
            None => Err(
                if y == 0 {
                    VmError::DivisionByZero
                } else {
                    VmError::ArithmeticOverflow
                },
            ),
        },
        (ValV::Isize(x), ValV::Isize(y)) => match x.checked_div(y) {
            Some(z) => Ok(ValV::Isize(z)),
            None => Err(
                if y == 0 {
                    VmError::DivisionByZero
                } else {
                    VmError::ArithmeticOverflow
                },
            ),
        },
        (ValV::Usize(x), ValV::Usize(y)) => match x.checked_div(y) {
            Some(z) => Ok(ValV::Usize(z)),
            None => Err(
                if y == 0 {
                    VmError::DivisionByZero
                } else {
                    VmError::ArithmeticOverflow
                },
            ),
        },
        _ => Err(VmError::TypeMismatch),
    }
}

/// Truncating remainder: same-variant integers; a zero divisor and
/// `MIN % -1` are errors.
pub open spec fn rem_vals(a: ValV, b: ValV) -> Result<ValV, VmError> {
    match (a, b) {
        (ValV::I8(x), ValV::I8(y)) => match x.checked_rem(y) {
            Some(z) => Ok(ValV::I8(z)),
            None => Err(
                if y == 0 {
                    VmError::DivisionByZero
                } else {
                    VmError::ArithmeticOverflow
                },
            ),
        },
        (ValV::U8(x), ValV::U8(y)) => match x.checked_rem(y) {
            Some(z) => Ok(ValV::U8(z)),
            None => Err(
                if y == 0 {
                    VmError::DivisionByZero
                } else {
                    VmError::ArithmeticOverflow
                },
            ),
        },
        (ValV::I16(x), ValV::I16(y)) => match x.checked_rem(y) {
            Some(z) => Ok(ValV::I16(z)),
            None => Err(
                if y == 0 {
                    VmError::DivisionByZero
                } else {
                    VmError::ArithmeticOverflow
                },
            ),
        },
        (ValV::U16(x), ValV::U16(y)) => match x.checked_rem(y) {
            Some(z) => Ok(ValV::U16(z)),
            None => Err(
                if y == 0 {
                    VmError::DivisionByZero
                } else {
                    VmError::ArithmeticOverflow
                },
            ),
        },
        (ValV::I32(x), ValV::I32(y)) => match x.checked_rem(y) {
            Some(z) => Ok(ValV::I32(z)),
            None => Err(
                if y == 0 {
                    VmError::DivisionByZero
                } else {
                    VmError::ArithmeticOverflow
                },
            ),
        },
        (ValV::U32(x), ValV::U32(y)) => match x.checked_rem(y) {
            Some(z) => Ok(ValV::U32(z)),
            None => Err(
                if y == 0 {
                    VmError::DivisionByZero
                } else {
                    VmError::ArithmeticOverflow
                },
            ),
        },
        (ValV::I64(x), ValV::I64(y)) => match x.checked_rem(y) {
            Some(z) => Ok(ValV::I64(z)),
            None => Err(
                if y == 0 {
                    VmError::DivisionByZero
                } else {
                    VmError::ArithmeticOverflow
                },
            ),
        },
        (ValV::U64(x), ValV::U64(y)) => match x.checked_rem(y) {
            Some(z) => Ok(ValV::U64(z)),
            None => Err(
                if y == 0 {
                    VmError::DivisionByZero
                } else {
                    VmError::ArithmeticOverflow
                },
            ),
        },
        (ValV::I128(x), ValV::I128(y)) => match x.checked_rem(y) {
            Some(z) => Ok(ValV::I128(z)),
            None => Err(
                if y == 0 {
                    VmError::DivisionByZero
                } else {
                    VmError::ArithmeticOverflow
                },
            ),
        },
        (ValV::U128(x), ValV::U128(y)) => match x.checked_rem(y) {
            Some(z) => Ok(ValV::U128(z)),
            None => Err(
                if y == 0 {
                    VmError::DivisionByZero
                } else {
                    VmError::ArithmeticOverflow
                },
            ),
        },
        (ValV::Isize(x), ValV::Isize(y)) => match x.checked_rem(y) {
            Some(z) => Ok(ValV::Isize(z)),
            None => Err(
                if y == 0 {
                    VmError::DivisionByZero
                } else {
                    VmError::ArithmeticOverflow
                },
            ),
        },
        (ValV::Usize(x), ValV::Usize(y)) => match x.checked_rem(y) {
            Some(z) => Ok(ValV::Usize(z)),
            None => Err(
                if y == 0 {
                    VmError::DivisionByZero
                } else {
                    VmError::ArithmeticOverflow
                },
            ),
        },
        _ => Err(VmError::TypeMismatch),
    }
}

/// Left shift: same-variant integers; the amount must be nonnegative
/// and below the operand's width.
pub open spec fn shl_vals(a: ValV, b: ValV) -> Result<ValV, VmError> {
    match (a, b) {
        (ValV::I8(x), ValV::I8(y)) => if 0 <= y && (y as int) < 8 {
            Ok(ValV::I8(x.wrapping_shl(y as u32)))
        } else {
            Err(VmError::ShiftOutOfRange)
        },
        (ValV::U8(x), ValV::U8(y)) => if 0 <= y && (y as int) < 8 {
            Ok(ValV::U8(x.wrapping_shl(y as u32)))
        } else {
            Err(VmError::ShiftOutOfRange)
        },
        (ValV::I16(x), ValV::I16(y)) => if 0 <= y && (y as int) < 16 {
            Ok(ValV::I16(x.wrapping_shl(y as u32)))
        } else {
            Err(VmError::ShiftOutOfRange)
        },
        (ValV::U16(x), ValV::U16(y)) => if 0 <= y && (y as int) < 16 {
            Ok(ValV::U16(x.wrapping_shl(y as u32)))
        } else {
            Err(VmError::ShiftOutOfRange)
        },
        (ValV::I32(x), ValV::I32(y)) => if 0 <= y && (y as int) < 32 {
            Ok(ValV::I32(x.wrapping_shl(y as u32)))
        } else {
            Err(VmError::ShiftOutOfRange)
        },
        (ValV::U32(x), ValV::U32(y)) => if 0 <= y && (y as int) < 32 {
            Ok(ValV::U32(x.wrapping_shl(y as u32)))
        } else {
            Err(VmError::ShiftOutOfRange)
        },
        (ValV::I64(x), ValV::I64(y)) => if 0 <= y && (y as int) < 64 {
            Ok(ValV::I64(x.wrapping_shl(y as u32)))
        } else {
            Err(VmError::ShiftOutOfRange)
        },
        (ValV::U64(x), ValV::U64(y)) => if 0 <= y && (y as int) < 64 {
            Ok(ValV::U64(x.wrapping_shl(y as u32)))
        } else {
            Err(VmError::ShiftOutOfRange)
        },
        (ValV::I128(x), ValV::I128(y)) => if 0 <= y && (y as int) < 128 {
            Ok(ValV::I128(x.wrapping_shl(y as u32)))
        } else {
            Err(VmError::ShiftOutOfRange)
        },
        (ValV::U128(x), ValV::U128(y)) => if 0 <= y && (y as int) < 128 {
            Ok(ValV::U128(x.wrapping_shl(y as u32)))
        } else {
            Err(VmError::ShiftOutOfRange)
        },
        (ValV::Isize(x), ValV::Isize(y)) => if 0 <= y && (y as int) < usize::BITS as int {
            Ok(ValV::Isize(x.wrapping_shl(y as u32)))
        } else {
            Err(VmError::ShiftOutOfRange)
        },
        (ValV::Usize(x), ValV::Usize(y)) => if 0 <= y && (y as int) < usize::BITS as int {
            Ok(ValV::Usize(x.wrapping_shl(y as u32)))
        } else {
            Err(VmError::ShiftOutOfRange)
        },
        _ => Err(VmError::TypeMismatch),
    }
}

/// Right shift: same-variant integers; the amount must be nonnegative
/// and below the operand's width.
pub open spec fn shr_vals(a: ValV, b: ValV) -> Result<ValV, VmError> {
    match (a, b) {
        (ValV::I8(x), ValV::I8(y)) => if 0 <= y && (y as int) < 8 {
            Ok(ValV::I8(x.wrapping_shr(y as u32)))
        } else {
            Err(VmError::ShiftOutOfRange)
        },
        (ValV::U8(x), ValV::U8(y)) => if 0 <= y && (y as int) < 8 {
            Ok(ValV::U8(x.wrapping_shr(y as u32)))
        } else {
            Err(VmError::ShiftOutOfRange)
        },
        (ValV::I16(x), ValV::I16(y)) => if 0 <= y && (y as int) < 16 {
            Ok(ValV::I16(x.wrapping_shr(y as u32)))
        } else {
            Err(VmError::ShiftOutOfRange)
        },
        (ValV::U16(x), ValV::U16(y)) => if 0 <= y && (y as int) < 16 {
            Ok(ValV::U16(x.wrapping_shr(y as u32)))
        } else {
            Err(VmError::ShiftOutOfRange)
        },
        (ValV::I32(x), ValV::I32(y)) => if 0 <= y && (y as int) < 32 {
            Ok(ValV::I32(x.wrapping_shr(y as u32)))
        } else {
            Err(VmError::ShiftOutOfRange)
        },
        (ValV::U32(x), ValV::U32(y)) => if 0 <= y && (y as int) < 32 {
            Ok(ValV::U32(x.wrapping_shr(y as u32)))
        } else {
            Err(VmError::ShiftOutOfRange)
        },
        (ValV::I64(x), ValV::I64(y)) => if 0 <= y && (y as int) < 64 {
            Ok(ValV::I64(x.wrapping_shr(y as u32)))
        } else {
            Err(VmError::ShiftOutOfRange)
        },
        (ValV::U64(x), ValV::U64(y)) => if 0 <= y && (y as int) < 64 {
            Ok(ValV::U64(x.wrapping_shr(y as u32)))
        } else {
            Err(VmError::ShiftOutOfRange)
        },
        (ValV::I128(x), ValV::I128(y)) => if 0 <= y && (y as int) < 128 {
            Ok(ValV::I128(x.wrapping_shr(y as u32)))
        } else {
            Err(VmError::ShiftOutOfRange)
        },
        (ValV::U128(x), ValV::U128(y)) => if 0 <= y && (y as int) < 128 {
            Ok(ValV::U128(x.wrapping_shr(y as u32)))
        } else {
            Err(VmError::ShiftOutOfRange)
        },
        (ValV::Isize(x), ValV::Isize(y)) => if 0 <= y && (y as int) < usize::BITS as int {
            Ok(ValV::Isize(x.wrapping_shr(y as u32)))
        } else {
            Err(VmError::ShiftOutOfRange)
        },
        (ValV::Usize(x), ValV::Usize(y)) => if 0 <= y && (y as int) < usize::BITS as int {
            Ok(ValV::Usize(x.wrapping_shr(y as u32)))
        } else {
            Err(VmError::ShiftOutOfRange)
        },
        _ => Err(VmError::TypeMismatch),
    }
}

/// Logical `not` on booleans; bitwise complement on integers.
pub open spec fn not_val(a: ValV) -> Result<ValV, VmError> {
    match a {
        ValV::Bool(b) => Ok(ValV::Bool(!b)),
        ValV::I8(x) => Ok(ValV::I8((-1 - x) as i8)),
        ValV::U8(x) => Ok(ValV::U8((u8::MAX - x) as u8)),
        ValV::I16(x) => Ok(ValV::I16((-1 - x) as i16)),
        ValV::U16(x) => Ok(ValV::U16((u16::MAX - x) as u16)),
        ValV::I32(x) => Ok(ValV::I32((-1 - x) as i32)),
        ValV::U32(x) => Ok(ValV::U32((u32::MAX - x) as u32)),
        ValV::I64(x) => Ok(ValV::I64((-1 - x) as i64)),
        ValV::U64(x) => Ok(ValV::U64((u64::MAX - x) as u64)),
        ValV::I128(x) => Ok(ValV::I128((-1 - x) as i128)),
        ValV::U128(x) => Ok(ValV::U128((u128::MAX - x) as u128)),
        ValV::Isize(x) => Ok(ValV::Isize((-1 - x) as isize)),
        ValV::Usize(x) => Ok(ValV::Usize((usize::MAX - x) as usize)),
        _ => Err(VmError::TypeMismatch),
    }
}

/// Negation: signed integers only; negating the minimum overflows.
pub open spec fn neg_val(a: ValV) -> Result<ValV, VmError> {
    match a {
        ValV::I8(x) => if x == i8::MIN {
            Err(VmError::ArithmeticOverflow)
        } else {
            Ok(ValV::I8((-x) as i8))
        },
        ValV::I16(x) => if x == i16::MIN {
            Err(VmError::ArithmeticOverflow)
        } else {
            Ok(ValV::I16((-x) as i16))
        },
        ValV::I32(x) => if x == i32::MIN {
            Err(VmError::ArithmeticOverflow)
        } else {
            Ok(ValV::I32((-x) as i32))
        },
        ValV::I64(x) => if x == i64::MIN {
            Err(VmError::ArithmeticOverflow)
        } else {
            Ok(ValV::I64((-x) as i64))
        },
        ValV::I128(x) => if x == i128::MIN {
            Err(VmError::ArithmeticOverflow)
        } else {
            Ok(ValV::I128((-x) as i128))
        },
        ValV::Isize(x) => if x == isize::MIN {
            Err(VmError::ArithmeticOverflow)
        } else {
            Ok(ValV::Isize((-x) as isize))
        },
        _ => Err(VmError::TypeMismatch),
    }
}
/// The outcome of an order comparison.
#[derive(Debug, Clone, Copy, PartialEq, Eq, Structural)]
pub enum CmpRes {
    Lt,
    Eq,
    Gt,
}

/// Lexicographic order on character sequences, by code point.
pub open spec fn lex_cmp(s1: Seq<char>, s2: Seq<char>) -> CmpRes
    decreases s1.len() + s2.len(),
{
    if s1.len() == 0 && s2.len() == 0 {
        CmpRes::Eq
    } else if s1.len() == 0 {
        CmpRes::Lt
    } else if s2.len() == 0 {
        CmpRes::Gt
    } else if (s1[0] as u32) < (s2[0] as u32) {
        CmpRes::Lt
    } else if (s1[0] as u32) > (s2[0] as u32) {
        CmpRes::Gt
    } else {
        lex_cmp(s1.skip(1), s2.skip(1))
    }
}

/// Ordering of two values: defined for same-variant integers, characters,
/// booleans, hashes and strings; every other pairing is a type error.
pub open spec fn cmp_vals(a: ValV, b: ValV) -> Result<CmpRes, VmError> {
    match (a, b) {
        (ValV::I8(x), ValV::I8(y)) => Ok(
            if x < y {
                CmpRes::Lt
            } else if x == y {
                CmpRes::Eq
            } else {
                CmpRes::Gt
            },
        ),
        (ValV::U8(x), ValV::U8(y)) => Ok(
            if x < y {
                CmpRes::Lt
            } else if x == y {
                CmpRes::Eq
            } else {
                CmpRes::Gt
            },
        ),
        (ValV::I16(x), ValV::I16(y)) => Ok(
            if x < y {
                CmpRes::Lt
            } else if x == y {
                CmpRes::Eq
            } else {
                CmpRes::Gt
            },
        ),
        (ValV::U16(x), ValV::U16(y)) => Ok(
            if x < y {
                CmpRes::Lt
            } else if x == y {
                CmpRes::Eq
            } else {
                CmpRes::Gt
            },
        ),
        (ValV::I32(x), ValV::I32(y)) => Ok(
            if x < y {
                CmpRes::Lt
            } else if x == y {
                CmpRes::Eq
            } else {
                CmpRes::Gt
            },
        ),
        (ValV::U32(x), ValV::U32(y)) => Ok(
            if x < y {
                CmpRes::Lt
            } else if x == y {
                CmpRes::Eq
            } else {
                CmpRes::Gt
            },
        ),
        (ValV::I64(x), ValV::I64(y)) => Ok(
            if x < y {
                CmpRes::Lt
            } else if x == y {
                CmpRes::Eq
            } else {
                CmpRes::Gt
            },
        ),
        (ValV::U64(x), ValV::U64(y)) => Ok(
            if x < y {
                CmpRes::Lt
            } else if x == y {
                CmpRes::Eq
            } else {
                CmpRes::Gt
            },
        ),
        (ValV::I128(x), ValV::I128(y)) => Ok(
            if x < y {
                CmpRes::Lt
            } else if x == y {
                CmpRes::Eq
            } else {
                CmpRes::Gt
            },
        ),
        (ValV::U128(x), ValV::U128(y)) => Ok(
            if x < y {
                CmpRes::Lt
            } else if x == y {
                CmpRes::Eq
            } else {
                CmpRes::Gt
            },
        ),
        (ValV::Isize(x), ValV::Isize(y)) => Ok(
            if x < y {
                CmpRes::Lt
            } else if x == y {
                CmpRes::Eq
            } else {
                CmpRes::Gt
            },
        ),
        (ValV::Usize(x), ValV::Usize(y)) => Ok(
            if x < y {
                CmpRes::Lt
            } else if x == y {
                CmpRes::Eq
            } else {
                CmpRes::Gt
            },
        ),
        (ValV::Char(x), ValV::Char(y)) => Ok(
            if (x as u32) < (y as u32) {
                CmpRes::Lt
            } else if x == y {
                CmpRes::Eq
            } else {
                CmpRes::Gt
            },
        ),
        (ValV::Bool(x), ValV::Bool(y)) => Ok(
            if !x && y {
                CmpRes::Lt
            } else if x == y {
                CmpRes::Eq
            } else {
                CmpRes::Gt
            },
        ),
        (ValV::Hash(x), ValV::Hash(y)) => Ok(
            if x < y {
                CmpRes::Lt
            } else if x == y {
                CmpRes::Eq
            } else {
                CmpRes::Gt
            },
        ),
        (ValV::Str(x), ValV::Str(y)) => Ok(lex_cmp(x, y)),
        _ => Err(VmError::TypeMismatch),
    }
}

/// Applies [`add_vals`] to two operands.
#[verifier::rlimit(100)]
pub fn value_add(a: Value, b: Value) -> (r: Result<Value, VmError>)
    ensures
        res_view(r) == add_vals(a@, b@),
{
    match (a, b) {
        (Value::I8(x), Value::I8(y)) => match x.checked_add(y) {
            Some(z) => Ok(Value::I8(z)),
            None => Err(VmError::ArithmeticOverflow),
        },
        (Value::U8(x), Value::U8(y)) => match x.checked_add(y) {
            Some(z) => Ok(Value::U8(z)),
            None => Err(VmError::ArithmeticOverflow),
        },
        (Value::I16(x), Value::I16(y)) => match x.checked_add(y) {
            Some(z) => Ok(Value::I16(z)),
            None => Err(VmError::ArithmeticOverflow),
        },
        (Value::U16(x), Value::U16(y)) => match x.checked_add(y) {
            Some(z) => Ok(Value::U16(z)),
            None => Err(VmError::ArithmeticOverflow),
        },
        (Value::I32(x), Value::I32(y)) => match x.checked_add(y) {
            Some(z) => Ok(Value::I32(z)),
            None => Err(VmError::ArithmeticOverflow),
        },
        (Value::U32(x), Value::U32(y)) => match x.checked_add(y) {
            Some(z) => Ok(Value::U32(z)),
            None => Err(VmError::ArithmeticOverflow),
        },
        (Value::I64(x), Value::I64(y)) => match x.checked_add(y) {
            Some(z) => Ok(Value::I64(z)),
            None => Err(VmError::ArithmeticOverflow),
        },
        (Value::U64(x), Value::U64(y)) => match x.checked_add(y) {
            Some(z) => Ok(Value::U64(z)),
            None => Err(VmError::ArithmeticOverflow),
        },
        (Value::I128(x), Value::I128(y)) => match x.checked_add(y) {
            Some(z) => Ok(Value::I128(z)),
            None => Err(VmError::ArithmeticOverflow),
        },
        (Value::U128(x), Value::U128(y)) => match x.checked_add(y) {
            Some(z) => Ok(Value::U128(z)),
            None => Err(VmError::ArithmeticOverflow),
        },
        (Value::Isize(x), Value::Isize(y)) => match x.checked_add(y) {
            Some(z) => Ok(Value::Isize(z)),
            None => Err(VmError::ArithmeticOverflow),
        },
        (Value::Usize(x), Value::Usize(y)) => match x.checked_add(y) {
            Some(z) => Ok(Value::Usize(z)),
            None => Err(VmError::ArithmeticOverflow),
        },
        (Value::String(x), Value::String(y)) => Ok(Value::String(x.concat(y.as_str()))),
        _ => Err(VmError::TypeMismatch),
    }
}

/// Applies [`sub_vals`] to two operands.
#[verifier::rlimit(100)]
pub fn value_sub(a: Value, b: Value) -> (r: Result<Value, VmError>)
    ensures
        res_view(r) == sub_vals(a@, b@),
{
    match (a, b) {
        (Value::I8(x), Value::I8(y)) => match x.checked_sub(y) {
            Some(z) => Ok(Value::I8(z)),
            None => Err(VmError::ArithmeticOverflow),
        },
        (Value::U8(x), Value::U8(y)) => match x.checked_sub(y) {
            Some(z) => Ok(Value::U8(z)),
            None => Err(VmError::ArithmeticOverflow),
        },
        (Value::I16(x), Value::I16(y)) => match x.checked_sub(y) {
            Some(z) => Ok(Value::I16(z)),
            None => Err(VmError::ArithmeticOverflow),
        },
        (Value::U16(x), Value::U16(y)) => match x.checked_sub(y) {
            Some(z) => Ok(Value::U16(z)),
            None => Err(VmError::ArithmeticOverflow),
        },
        (Value::I32(x), Value::I32(y)) => match x.checked_sub(y) {
            Some(z) => Ok(Value::I32(z)),
            None => Err(VmError::ArithmeticOverflow),
        },
        (Value::U32(x), Value::U32(y)) => match x.checked_sub(y) {
            Some(z) => Ok(Value::U32(z)),
            None => Err(VmError::ArithmeticOverflow),
        },
        (Value::I64(x), Value::I64(y)) => match x.checked_sub(y) {
            Some(z) => Ok(Value::I64(z)),
            None => Err(VmError::ArithmeticOverflow),
        },
        (Value::U64(x), Value::U64(y)) => match x.checked_sub(y) {
            Some(z) => Ok(Value::U64(z)),
            None => Err(VmError::ArithmeticOverflow),
        },
        (Value::I128(x), Value::I128(y)) => match x.checked_sub(y) {
            Some(z) => Ok(Value::I128(z)),
            None => Err(VmError::ArithmeticOverflow),
        },
        (Value::U128(x), Value::U128(y)) => match x.checked_sub(y) {
            Some(z) => Ok(Value::U128(z)),
            None => Err(VmError::ArithmeticOverflow),
        },
        (Value::Isize(x), Value::Isize(y)) => match x.checked_sub(y) {
            Some(z) => Ok(Value::Isize(z)),
            None => Err(VmError::ArithmeticOverflow),
        },
        (Value::Usize(x), Value::Usize(y)) => match x.checked_sub(y) {
            Some(z) => Ok(Value::Usize(z)),
            None => Err(VmError::ArithmeticOverflow),
        },
        _ => Err(VmError::TypeMismatch),
    }
}

/// Applies [`mul_vals`] to two operands.
#[verifier::rlimit(100)]
pub fn value_mul(a: Value, b: Value) -> (r: Result<Value, VmError>)
    ensures
        res_view(r) == mul_vals(a@, b@),
{
    match (a, b) {
        (Value::I8(x), Value::I8(y)) => match x.checked_mul(y) {
            Some(z) => Ok(Value::I8(z)),
            None => Err(VmError::ArithmeticOverflow),
        },
        (Value::U8(x), Value::U8(y)) => match x.checked_mul(y) {
            Some(z) => Ok(Value::U8(z)),
            None => Err(VmError::ArithmeticOverflow),
        },
        (Value::I16(x), Value::I16(y)) => match x.checked_mul(y) {
            Some(z) => Ok(Value::I16(z)),
            None => Err(VmError::ArithmeticOverflow),
        },
        (Value::U16(x), Value::U16(y)) => match x.checked_mul(y) {
            Some(z) => Ok(Value::U16(z)),
            None => Err(VmError::ArithmeticOverflow),
        },
        (Value::I32(x), Value::I32(y)) => match x.checked_mul(y) {
            Some(z) => Ok(Value::I32(z)),
            None => Err(VmError::ArithmeticOverflow),
        },
        (Value::U32(x), Value::U32(y)) => match x.checked_mul(y) {
            Some(z) => Ok(Value::U32(z)),
            None => Err(VmError::ArithmeticOverflow),
        },
        (Value::I64(x), Value::I64(y)) => match x.checked_mul(y) {
            Some(z) => Ok(Value::I64(z)),
            None => Err(VmError::ArithmeticOverflow),
        },
        (Value::U64(x), Value::U64(y)) => match x.checked_mul(y) {
            Some(z) => Ok(Value::U64(z)),
            None => Err(VmError::ArithmeticOverflow),
        },
        (Value::I128(x), Value::I128(y)) => match x.checked_mul(y) {
            Some(z) => Ok(Value::I128(z)),
            None => Err(VmError::ArithmeticOverflow),
        },
        (Value::U128(x), Value::U128(y)) => match x.checked_mul(y) {
            Some(z) => Ok(Value::U128(z)),
            None => Err(VmError::ArithmeticOverflow),
        },
        (Value::Isize(x), Value::Isize(y)) => match x.checked_mul(y) {
            Some(z) => Ok(Value::Isize(z)),
            None => Err(VmError::ArithmeticOverflow),
        },
        (Value::Usize(x), Value::Usize(y)) => match x.checked_mul(y) {
            Some(z) => Ok(Value::Usize(z)),
            None => Err(VmError::ArithmeticOverflow),
        },
        (Value::String(s), Value::I32(k)) => Ok(Value::String(repeat_string(&s, k))),
        _ => Err(VmError::TypeMismatch),
    }
}

/// Applies [`div_vals`] to two operands.
#[verifier::rlimit(100)]
pub fn value_div(a: Value, b: Value) -> (r: Result<Value, VmError>)
    ensures
        res_view(r) == div_vals(a@, b@),
{
    match (a, b) {
        (Value::I8(x), Value::I8(y)) => match x.checked_div(y) {
            Some(z) => Ok(Value::I8(z)),
            None => Err(
                if y == 0 {
                    VmError::DivisionByZero
                } else {
                    VmError::ArithmeticOverflow
                },
            ),
        },
        (Value::U8(x), Value::U8(y)) => match x.checked_div(y) {
            Some(z) => Ok(Value::U8(z)),
            None => Err(
                if y == 0 {
                    VmError::DivisionByZero
                } else {
                    VmError::ArithmeticOverflow
                },
            ),
        },
        (Value::I16(x), Value::I16(y)) => match x.checked_div(y) {
            Some(z) => Ok(Value::I16(z)),
            None => Err(
                if y == 0 {
                    VmError::DivisionByZero
                } else {
                    VmError::ArithmeticOverflow
                },
            ),
        },
        (Value::U16(x), Value::U16(y)) => match x.checked_div(y) {
            Some(z) => Ok(Value::U16(z)),
            None => Err(
                if y == 0 {
                    VmError::DivisionByZero
                } else {
                    VmError::ArithmeticOverflow
                },
            ),
        },
        (Value::I32(x), Value::I32(y)) => match x.checked_div(y) {
            Some(z) => Ok(Value::I32(z)),
            None => Err(
                if y == 0 {
                    VmError::DivisionByZero
                } else {
                    VmError::ArithmeticOverflow
                },
            ),
        },
        (Value::U32(x), Value::U32(y)) => match x.checked_div(y) {
            Some(z) => Ok(Value::U32(z)),
            None => Err(
                if y == 0 {
                    VmError::DivisionByZero
                } else {
                    VmError::ArithmeticOverflow
                },
            ),
        },
        (Value::I64(x), Value::I64(y)) => match x.checked_div(y) {
            Some(z) => Ok(Value::I64(z)),
            None => Err(
                if y == 0 {
                    VmError::DivisionByZero
                } else {
                    VmError::ArithmeticOverflow
                },
            ),
        },
        (Value::U64(x), Value::U64(y)) => match x.checked_div(y) {
            Some(z) => Ok(Value::U64(z)),
            None => Err(
                if y == 0 {
                    VmError::DivisionByZero
                } else {
                    VmError::ArithmeticOverflow
                },
            ),
        },
        (Value::I128(x), Value::I128(y)) => match x.checked_div(y) {
            Some(z) => Ok(Value::I128(z)),
            None => Err(
                if y == 0 {
                    VmError::DivisionByZero
                } else {
                    VmError::ArithmeticOverflow
                },
            ),
        },
        (Value::U128(x), Value::U128(y)) => match x.checked_div(y) {
            Some(z) => Ok(Value::U128(z)),
            None => Err(
                if y == 0 {
                    VmError::DivisionByZero
                } else {
                    VmError::ArithmeticOverflow
                },
            ),
        },
        (Value::Isize(x), Value::Isize(y)) => match x.checked_div(y) {
            Some(z) => Ok(Value::Isize(z)),
            None => Err(
                if y == 0 {
                    VmError::DivisionByZero
                } else {
                    VmError::ArithmeticOverflow
                },
            ),
        },
        (Value::Usize(x), Value::Usize(y)) => match x.checked_div(y) {
            Some(z) => Ok(Value::Usize(z)),
            None => Err(
                if y == 0 {
                    VmError::DivisionByZero
                } else {
                    VmError::ArithmeticOverflow
                },
            ),
        },
        _ => Err(VmError::TypeMismatch),
    }
}

/// Applies [`rem_vals`] to two operands.
#[verifier::rlimit(100)]
pub fn value_rem(a: Value, b: Value) -> (r: Result<Value, VmError>)
    ensures
        res_view(r) == rem_vals(a@, b@),
{
    match (a, b) {
        (Value::I8(x), Value::I8(y)) => match x.checked_rem(y) {
            Some(z) => Ok(Value::I8(z)),
            None => Err(
                if y == 0 {
                    VmError::DivisionByZero
                } else {
                    VmError::ArithmeticOverflow
                },
            ),
        },
        (Value::U8(x), Value::U8(y)) => match x.checked_rem(y) {
            Some(z) => Ok(Value::U8(z)),
            None => Err(
                if y == 0 {
                    VmError::DivisionByZero
                } else {
                    VmError::ArithmeticOverflow
                },
            ),
        },
        (Value::I16(x), Value::I16(y)) => match x.checked_rem(y) {
            Some(z) => Ok(Value::I16(z)),
            None => Err(
                if y == 0 {
                    VmError::DivisionByZero
                } else {
                    VmError::ArithmeticOverflow
                },
            ),
        },
        (Value::U16(x), Value::U16(y)) => match x.checked_rem(y) {
            Some(z) => Ok(Value::U16(z)),
            None => Err(
                if y == 0 {
                    VmError::DivisionByZero
                } else {
                    VmError::ArithmeticOverflow
                },
            ),
        },
        (Value::I32(x), Value::I32(y)) => match x.checked_rem(y) {
            Some(z) => Ok(Value::I32(z)),
            None => Err(
                if y == 0 {
                    VmError::DivisionByZero
                } else {
                    VmError::ArithmeticOverflow
                },
            ),
        },
        (Value::U32(x), Value::U32(y)) => match x.checked_rem(y) {
            Some(z) => Ok(Value::U32(z)),
            None => Err(
                if y == 0 {
                    VmError::DivisionByZero
                } else {
                    VmError::ArithmeticOverflow
                },
            ),
        },
        (Value::I64(x), Value::I64(y)) => match x.checked_rem(y) {
            Some(z) => Ok(Value::I64(z)),
            None => Err(
                if y == 0 {
                    VmError::DivisionByZero
                } else {
                    VmError::ArithmeticOverflow
                },
            ),
        },
        (Value::U64(x), Value::U64(y)) => match x.checked_rem(y) {
            Some(z) => Ok(Value::U64(z)),
            None => Err(
                if y == 0 {
                    VmError::DivisionByZero
                } else {
                    VmError::ArithmeticOverflow
                },
            ),
        },
        (Value::I128(x), Value::I128(y)) => match x.checked_rem(y) {
            Some(z) => Ok(Value::I128(z)),
            None => Err(
                if y == 0 {
                    VmError::DivisionByZero
                } else {
                    VmError::ArithmeticOverflow
                },
            ),
        },
        (Value::U128(x), Value::U128(y)) => match x.checked_rem(y) {
            Some(z) => Ok(Value::U128(z)),
            None => Err(
                if y == 0 {
                    VmError::DivisionByZero
                } else {
                    VmError::ArithmeticOverflow
                },
            ),
        },
        (Value::Isize(x), Value::Isize(y)) => match x.checked_rem(y) {
            Some(z) => Ok(Value::Isize(z)),
            None => Err(
                if y == 0 {
                    VmError::DivisionByZero
                } else {
                    VmError::ArithmeticOverflow
                },
            ),
        },
        (Value::Usize(x), Value::Usize(y)) => match x.checked_rem(y) {
            Some(z) => Ok(Value::Usize(z)),
            None => Err(
                if y == 0 {
                    VmError::DivisionByZero
                } else {
                    VmError::ArithmeticOverflow
                },
            ),
        },
        _ => Err(VmError::TypeMismatch),
    }
}

/// Applies [`shl_vals`] to two operands.
#[verifier::rlimit(100)]
pub fn value_shl(a: Value, b: Value) -> (r: Result<Value, VmError>)
    ensures
        res_view(r) == shl_vals(a@, b@),
{
    match (a, b) {
        (Value::I8(x), Value::I8(y)) => if y >= 0 && y < 8 {
            Ok(Value::I8(x.wrapping_shl(y as u32)))
        } else {
            Err(VmError::ShiftOutOfRange)
        },
        (Value::U8(x), Value::U8(y)) => if y < 8 {
            Ok(Value::U8(x.wrapping_shl(y as u32)))
        } else {
            Err(VmError::ShiftOutOfRange)
        },
        (Value::I16(x), Value::I16(y)) => if y >= 0 && y < 16 {
            Ok(Value::I16(x.wrapping_shl(y as u32)))
        } else {
            Err(VmError::ShiftOutOfRange)
        },
        (Value::U16(x), Value::U16(y)) => if y < 16 {
            Ok(Value::U16(x.wrapping_shl(y as u32)))
        } else {
            Err(VmError::ShiftOutOfRange)
        },
        (Value::I32(x), Value::I32(y)) => if y >= 0 && y < 32 {
            Ok(Value::I32(x.wrapping_shl(y as u32)))
        } else {
            Err(VmError::ShiftOutOfRange)
        },
        (Value::U32(x), Value::U32(y)) => if y < 32 {
            Ok(Value::U32(x.wrapping_shl(y as u32)))
        } else {
            Err(VmError::ShiftOutOfRange)
        },
        (Value::I64(x), Value::I64(y)) => if y >= 0 && y < 64 {
            Ok(Value::I64(x.wrapping_shl(y as u32)))
        } else {
            Err(VmError::ShiftOutOfRange)
        },
        (Value::U64(x), Value::U64(y)) => if y < 64 {
            Ok(Value::U64(x.wrapping_shl(y as u32)))
        } else {
            Err(VmError::ShiftOutOfRange)
        },
        (Value::I128(x), Value::I128(y)) => if y >= 0 && y < 128 {
            Ok(Value::I128(x.wrapping_shl(y as u32)))
        } else {
            Err(VmError::ShiftOutOfRange)
        },
        (Value::U128(x), Value::U128(y)) => if y < 128 {
            Ok(Value::U128(x.wrapping_shl(y as u32)))
        } else {
            Err(VmError::ShiftOutOfRange)
        },
        (Value::Isize(x), Value::Isize(y)) => if y >= 0 && (y as usize) < (usize::BITS as usize) {
            Ok(Value::Isize(x.wrapping_shl(y as u32)))
        } else {
            Err(VmError::ShiftOutOfRange)
        },
        (Value::Usize(x), Value::Usize(y)) => if (y as usize) < (usize::BITS as usize) {
            Ok(Value::Usize(x.wrapping_shl(y as u32)))
        } else {
            Err(VmError::ShiftOutOfRange)
        },
        _ => Err(VmError::TypeMismatch),
    }
}

/// Applies [`shr_vals`] to two operands.
#[verifier::rlimit(100)]
pub fn value_shr(a: Value, b: Value) -> (r: Result<Value, VmError>)
    ensures
        res_view(r) == shr_vals(a@, b@),
{
    match (a, b) {
        (Value::I8(x), Value::I8(y)) => if y >= 0 && y < 8 {
            Ok(Value::I8(x.wrapping_shr(y as u32)))
        } else {
            Err(VmError::ShiftOutOfRange)
        },
        (Value::U8(x), Value::U8(y)) => if y < 8 {
            Ok(Value::U8(x.wrapping_shr(y as u32)))
        } else {
            Err(VmError::ShiftOutOfRange)
        },
        (Value::I16(x), Value::I16(y)) => if y >= 0 && y < 16 {
            Ok(Value::I16(x.wrapping_shr(y as u32)))
        } else {
            Err(VmError::ShiftOutOfRange)
        },
        (Value::U16(x), Value::U16(y)) => if y < 16 {
            Ok(Value::U16(x.wrapping_shr(y as u32)))
        } else {
            Err(VmError::ShiftOutOfRange)
        },
        (Value::I32(x), Value::I32(y)) => if y >= 0 && y < 32 {
            Ok(Value::I32(x.wrapping_shr(y as u32)))
        } else {
            Err(VmError::ShiftOutOfRange)
        },
        (Value::U32(x), Value::U32(y)) => if y < 32 {
            Ok(Value::U32(x.wrapping_shr(y as u32)))
        } else {
            Err(VmError::ShiftOutOfRange)
        },
        (Value::I64(x), Value::I64(y)) => if y >= 0 && y < 64 {
            Ok(Value::I64(x.wrapping_shr(y as u32)))
        } else {
            Err(VmError::ShiftOutOfRange)
        },
        (Value::U64(x), Value::U64(y)) => if y < 64 {
            Ok(Value::U64(x.wrapping_shr(y as u32)))
        } else {
            Err(VmError::ShiftOutOfRange)
        },
        (Value::I128(x), Value::I128(y)) => if y >= 0 && y < 128 {
            Ok(Value::I128(x.wrapping_shr(y as u32)))
        } else {
            Err(VmError::ShiftOutOfRange)
        },
        (Value::U128(x), Value::U128(y)) => if y < 128 {
            Ok(Value::U128(x.wrapping_shr(y as u32)))
        } else {
            Err(VmError::ShiftOutOfRange)
        },
        (Value::Isize(x), Value::Isize(y)) => if y >= 0 && (y as usize) < (usize::BITS as usize) {
            Ok(Value::Isize(x.wrapping_shr(y as u32)))
        } else {
            Err(VmError::ShiftOutOfRange)
        },
        (Value::Usize(x), Value::Usize(y)) => if (y as usize) < (usize::BITS as usize) {
            Ok(Value::Usize(x.wrapping_shr(y as u32)))
        } else {
            Err(VmError::ShiftOutOfRange)
        },
        _ => Err(VmError::TypeMismatch),
    }
}

/// Applies [`not_val`] to one operand.
#[verifier::rlimit(100)]
pub fn value_not(a: Value) -> (r: Result<Value, VmError>)
    ensures
        res_view(r) == not_val(a@),
{
    match a {
        Value::Bool(b) => Ok(Value::Bool(!b)),
        Value::I8(x) => Ok(Value::I8(-1 - x)),
        Value::U8(x) => Ok(Value::U8(u8::MAX - x)),
        Value::I16(x) => Ok(Value::I16(-1 - x)),
        Value::U16(x) => Ok(Value::U16(u16::MAX - x)),
        Value::I32(x) => Ok(Value::I32(-1 - x)),
        Value::U32(x) => Ok(Value::U32(u32::MAX - x)),
        Value::I64(x) => Ok(Value::I64(-1 - x)),
        Value::U64(x) => Ok(Value::U64(u64::MAX - x)),
        Value::I128(x) => Ok(Value::I128(-1 - x)),
        Value::U128(x) => Ok(Value::U128(u128::MAX - x)),
        Value::Isize(x) => Ok(Value::Isize(-1 - x)),
        Value::Usize(x) => Ok(Value::Usize(usize::MAX - x)),
        _ => Err(VmError::TypeMismatch),
    }
}

/// Applies [`neg_val`] to one operand.
#[verifier::rlimit(100)]
pub fn value_neg(a: Value) -> (r: Result<Value, VmError>)
    ensures
        res_view(r) == neg_val(a@),
{
    match a {
        Value::I8(x) => if x == i8::MIN {
            Err(VmError::ArithmeticOverflow)
        } else {
            Ok(Value::I8(-x))
        },
        Value::I16(x) => if x == i16::MIN {
            Err(VmError::ArithmeticOverflow)
        } else {
            Ok(Value::I16(-x))
        },
        Value::I32(x) => if x == i32::MIN {
            Err(VmError::ArithmeticOverflow)
        } else {
            Ok(Value::I32(-x))
        },
        Value::I64(x) => if x == i64::MIN {
            Err(VmError::ArithmeticOverflow)
        } else {
            Ok(Value::I64(-x))
        },
        Value::I128(x) => if x == i128::MIN {
            Err(VmError::ArithmeticOverflow)
        } else {
            Ok(Value::I128(-x))
        },
        Value::Isize(x) => if x == isize::MIN {
            Err(VmError::ArithmeticOverflow)
        } else {
            Ok(Value::Isize(-x))
        },
        _ => Err(VmError::TypeMismatch),
    }
}

/// Builds `s` repeated `k` times (empty when `k` is not positive).
fn repeat_string(s: &String, k: i32) -> (r: String)
    ensures
        r@ == repeat_chars(s@, k as int),
{
    let mut out = String::new();
    if k <= 0 {
        return out;
    }
    let mut i: i32 = 0;
    while i < k
        invariant
            0 <= i <= k,
            out@ == repeat_chars(s@, i as int),
        decreases k - i,
    {
        out.append(s.as_str());
        i = i + 1;
    }
    out
}

/// Compares the tails of two character vectors from position `k` on.
fn lex_cmp_from(a: &Vec<char>, b: &Vec<char>, k: usize) -> (r: CmpRes)
    requires
        k <= a@.len(),
        k <= b@.len(),
    ensures
        r == lex_cmp(a@.skip(k as int), b@.skip(k as int)),
    decreases a@.len() - k,
{
    proof {
        assert(a@.skip(k as int).len() == a@.len() - k);
        assert(b@.skip(k as int).len() == b@.len() - k);
    }
    if k == a.len() && k == b.len() {
        CmpRes::Eq
    } else if k == a.len() {
        CmpRes::Lt
    } else if k == b.len() {
        CmpRes::Gt
    } else {
        let ca = a[k];
        let cb = b[k];
        proof {
            assert(a@.skip(k as int)[0] == a@[k as int]);
            assert(b@.skip(k as int)[0] == b@[k as int]);
        }
        if (ca as u32) < (cb as u32) {
            CmpRes::Lt
        } else if (ca as u32) > (cb as u32) {
            CmpRes::Gt
        } else {
            let r = lex_cmp_from(a, b, k + 1);
            proof {
                assert(a@.skip(k as int).skip(1) =~= a@.skip(k as int + 1));
                assert(b@.skip(k as int).skip(1) =~= b@.skip(k as int + 1));
            }
            r
        }
    }
}

/// Applies [`cmp_vals`] to two operands.
#[verifier::rlimit(100)]
pub fn value_compare(a: &Value, b: &Value) -> (r: Result<CmpRes, VmError>)
    ensures
        r == cmp_vals(a@, b@),
{
    match (a, b) {
        (Value::I8(x), Value::I8(y)) => Ok(
            if *x < *y {
                CmpRes::Lt
            } else if *x == *y {
                CmpRes::Eq
            } else {
                CmpRes::Gt
            },
        ),
        (Value::U8(x), Value::U8(y)) => Ok(
            if *x < *y {
                CmpRes::Lt
            } else if *x == *y {
                CmpRes::Eq
            } else {
                CmpRes::Gt
            },
        ),
        (Value::I16(x), Value::I16(y)) => Ok(
            if *x < *y {
                CmpRes::Lt
            } else if *x == *y {
                CmpRes::Eq
            } else {
                CmpRes::Gt
            },
        ),
        (Value::U16(x), Value::U16(y)) => Ok(
            if *x < *y {
                CmpRes::Lt
            } else if *x == *y {
                CmpRes::Eq
            } else {
                CmpRes::Gt
            },
        ),
        (Value::I32(x), Value::I32(y)) => Ok(
            if *x < *y {
                CmpRes::Lt
            } else if *x == *y {
                CmpRes::Eq
            } else {
                CmpRes::Gt
            },
        ),
        (Value::U32(x), Value::U32(y)) => Ok(
            if *x < *y {
                CmpRes::Lt
            } else if *x == *y {
                CmpRes::Eq
            } else {
                CmpRes::Gt
            },
        ),
        (Value::I64(x), Value::I64(y)) => Ok(
            if *x < *y {
                CmpRes::Lt
            } else if *x == *y {
                CmpRes::Eq
            } else {
                CmpRes::Gt
            },
        ),
        (Value::U64(x), Value::U64(y)) => Ok(
            if *x < *y {
                CmpRes::Lt
            } else if *x == *y {
                CmpRes::Eq
            } else {
                CmpRes::Gt
            },
        ),
        (Value::I128(x), Value::I128(y)) => Ok(
            if *x < *y {
                CmpRes::Lt
            } else if *x == *y {
                CmpRes::Eq
            } else {
                CmpRes::Gt
            },
        ),
        (Value::U128(x), Value::U128(y)) => Ok(
            if *x < *y {
                CmpRes::Lt
            } else if *x == *y {
                CmpRes::Eq
            } else {
                CmpRes::Gt
            },
        ),
        (Value::Isize(x), Value::Isize(y)) => Ok(
            if *x < *y {
                CmpRes::Lt
            } else if *x == *y {
                CmpRes::Eq
            } else {
                CmpRes::Gt
            },
        ),
        (Value::Usize(x), Value::Usize(y)) => Ok(
            if *x < *y {
                CmpRes::Lt
            } else if *x == *y {
                CmpRes::Eq
            } else {
                CmpRes::Gt
            },
        ),
        (Value::Char(x), Value::Char(y)) => Ok(
            if (*x as u32) < (*y as u32) {
                CmpRes::Lt
            } else if (*x as u32) == (*y as u32) {
                CmpRes::Eq
            } else {
                CmpRes::Gt
            },
        ),
        (Value::Bool(x), Value::Bool(y)) => Ok(
            if !*x && *y {
                CmpRes::Lt
            } else if *x == *y {
                CmpRes::Eq
            } else {
                CmpRes::Gt
            },
        ),
        (Value::Hash(x), Value::Hash(y)) => Ok(
            if *x < *y {
                CmpRes::Lt
            } else if *x == *y {
                CmpRes::Eq
            } else {
                CmpRes::Gt
            },
        ),
        (Value::String(x), Value::String(y)) => {
            let ca = chars_of(x.as_str());
            let cb = chars_of(y.as_str());
            let r = lex_cmp_from(&ca, &cb, 0);
            proof {
                assert(ca@.skip(0) =~= ca@);
                assert(cb@.skip(0) =~= cb@);
            }
            Ok(r)
        },
        _ => Err(VmError::TypeMismatch),
    }
}

/// Structural equality as an operator: always a boolean, never an error.
pub fn value_eq_op(a: &Value, b: &Value) -> (r: Value)
    ensures
        r@ == (ValV::Bool(a@ == b@)),
{
    Value::Bool(eq_value(a, b))
}

} // verus!