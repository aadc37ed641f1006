//! Numbers: what a number type admits, and how one is drawn.

use crate::rng::{pick, random, uniform};
use crate::types::{NumInfo, NumKind, NumLimit};
use crate::value::{NumValue, Value};
use vstd::prelude::*;

verus! {

/// `n` is a value of the type `info`: of its signedness and width, and
/// within its limit.
pub open spec fn num_ok(info: NumInfo, n: NumValue) -> bool {
    &&& (n is Signed) == info.kind.is_signed()
    &&& info.kind.holds(n.as_int())
    &&& match info.limit {
        NumLimit::Any => true,
        NumLimit::Vals(vals) => vals@.contains(n.as_int() as i128),
        NumLimit::Range { lo, hi } => lo <= n.as_int() < hi,
    }
}

/// Stores `n` as a number of kind `kind`: signed kinds as `i64`, unsigned
/// kinds as `u64`.
pub fn num_value(kind: NumKind, n: i128) -> (v: NumValue)
    requires
        kind.holds(n as int),
    ensures
        v.as_int() == n,
        (v is Signed) == kind.is_signed(),
{
    match kind {
        NumKind::I8 | NumKind::I16 | NumKind::I32 | NumKind::I64 | NumKind::Isize => {
            NumValue::Signed(n as i64)
        },
        _ => NumValue::Unsigned(n as u64),
    }
}

/// Draws a number at the width of `kind` and widens it.
pub fn random_of_kind(kind: NumKind) -> (n: i128)
    ensures
        kind.holds(n as int),
{
    match kind {
        NumKind::I8 => random::<i8>() as i128,
        NumKind::I16 => random::<i16>() as i128,
        NumKind::I32 => random::<i32>() as i128,
        NumKind::I64 => random::<i64>() as i128,
        NumKind::Isize => random::<isize>() as i128,
        NumKind::U8 => random::<u8>() as i128,
        NumKind::U16 => random::<u16>() as i128,
        NumKind::U32 => random::<u32>() as i128,
        NumKind::U64 => random::<u64>() as i128,
        NumKind::Usize => random::<usize>() as i128,
    }
}

/// Draws a number of the type `type_info`: one of its listed values, a
/// number of its range, or any number of its width.
pub fn gen_num(type_info: &NumInfo) -> (v: Value)
    requires
        type_info.wf(),
    ensures
        v matches Value::Num(n) && num_ok(*type_info, n),
{
    let n: i128 = match &type_info.limit {
        NumLimit::Vals(vals) => *pick(vals.as_slice()),
        NumLimit::Range { lo, hi } => uniform(*lo, *hi),
        NumLimit::Any => random_of_kind(type_info.kind),
    };
    Value::Num(num_value(type_info.kind, n))
}

} // verus!
