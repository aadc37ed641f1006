//! Flags: bit masks drawn from the named bits of a flag type.

use crate::rng::{pick, random, random_ratio};
use crate::types::Flag;
use crate::value::{NumValue, Value};
use vstd::prelude::*;

verus! {

/// How many further flags are mixed into a mask at most, so that drawing a
/// mask comes to an end whatever the coin says.
pub const MIX_ROUNDS_MAX: usize = 64;

/// The bitwise and of `vals`; all bits set where there are none.
pub open spec fn and_all(vals: Seq<i64>) -> i64
    decreases vals.len(),
{
    if vals.len() == 0 {
        -1i64
    } else {
        and_all(vals.drop_last()) & vals.last()
    }
}

/// Every one of `vals` is the value of one of `flags`.
pub open spec fn drawn_from(flags: Seq<Flag>, vals: Seq<i64>) -> bool {
    forall|k: int|
        0 <= k < vals.len() ==> exists|i: int|
            0 <= i < flags.len() && flags[i].val == #[trigger] vals[k]
}

/// `n` is some 32-bit number, or the bitwise and of one or more of `flags`.
pub open spec fn flag_ok(flags: Seq<Flag>, n: i64) -> bool {
    ||| i32::MIN <= n <= i32::MAX
    ||| exists|vals: Seq<i64>| vals.len() > 0 && drawn_from(flags, vals) && n == and_all(vals)
}

/// The mask that the picked values `vals` leave: the bits they all share.
pub fn combine(vals: &Vec<i64>) -> (mask: i64)
    requires
        vals@.len() > 0,
    ensures
        mask == and_all(vals@),
{
    let mut mask: i64 = vals[0];
    assert(and_all(vals@.take(1)) == mask) by {
        let first = vals@[0];
        assert(vals@.take(1).drop_last() =~= Seq::<i64>::empty());
        assert(and_all(vals@.take(1)) == and_all(Seq::<i64>::empty()) & first);
        assert(-1i64 & first == first) by (bit_vector);
    }
    let mut i: usize = 1;
    while i < vals.len()
        invariant
            1 <= i <= vals@.len(),
            mask == and_all(vals@.take(i as int)),
        decreases vals@.len() - i,
    {
        assert(vals@.take(i + 1).drop_last() =~= vals@.take(i as int));
        mask = mask & vals[i];
        i += 1;
    }
    assert(vals@.take(i as int) =~= vals@);
    mask
}

/// Draws a value for a flag type. One time in five any 32-bit number, to
/// try masks that the type does not define. Otherwise one flag, and while a
/// fair coin says so, `MIX_ROUNDS_MAX` times at most, one more flag; the
/// mask keeps the bits that all picked flags share.
pub fn gen_flag(flags: &[Flag]) -> (v: Value)
    requires
        flags@.len() > 0,
    ensures
        v matches Value::Num(NumValue::Signed(n)) && flag_ok(flags@, n),
{
    if random_ratio(1, 5) {
        Value::Num(NumValue::Signed(random::<i32>() as i64))
    } else {
        let mut vals: Vec<i64> = Vec::new();
        vals.push(pick(flags).val);
        let mut rounds: usize = 0;
        while rounds < MIX_ROUNDS_MAX && random::<bool>()
            invariant
                vals@.len() > 0,
                flags@.len() > 0,
                drawn_from(flags@, vals@),
            decreases MIX_ROUNDS_MAX - rounds,
        {
            vals.push(pick(flags).val);
            rounds += 1;
        }
        Value::Num(NumValue::Signed(combine(&vals)))
    }
}

} // verus!
