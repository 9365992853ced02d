use vstd::prelude::*;

verus! {

/// Whether `a` and `b` differ by strictly less than `max_err` either way.
pub fn mostly_eq(a: i64, b: i64, max_err: i64) -> (r: bool)
    ensures
        r == (a - b < max_err && a - b > -max_err),
{
    let zero = a as i128 - b as i128;
    zero < max_err as i128 && zero > -(max_err as i128)
}

} // verus!
