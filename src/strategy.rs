//! The three aggregation strategies, each a pure step on its own
//! accumulator and a projection from the accumulator to the result.
use vstd::prelude::*;

verus! {

/// `a / b` rounded toward zero, for a positive divisor.
pub open spec fn truncated_quotient(a: int, b: int) -> int
    recommends
        b > 0,
{
    if a >= 0 {
        a / b
    } else {
        -((-a) / b)
    }
}

/// The mean of `count` numbers adding up to `sum`, rounded toward zero; the
/// mean of no numbers is taken to be 0.
pub open spec fn average(sum: int, count: int) -> int {
    if count == 0 {
        0
    } else {
        truncated_quotient(sum, count)
    }
}

/// Running total. The accumulator is the sum so far.
pub struct Sum;

impl Sum {
    pub fn fold(acc: i64, n: i64) -> (r: i64)
        requires
            i64::MIN <= acc + n <= i64::MAX,
        ensures
            r == acc + n,
    {
        acc + n
    }

    pub fn finish(acc: i64) -> (r: i64)
        ensures
            r == acc,
    {
        acc
    }
}

/// Running mean. The accumulator is the number of values seen and their sum.
pub struct Avg;

impl Avg {
    pub fn fold(acc: (u32, i64), n: i64) -> (r: (u32, i64))
        requires
            acc.0 < u32::MAX,
            i64::MIN <= acc.1 + n <= i64::MAX,
        ensures
            r.0 == acc.0 + 1,
            r.1 == acc.1 + n,
    {
        (acc.0 + 1, acc.1 + n)
    }

    /// The sum divided by the count, rounded toward zero. With no values
    /// seen there is nothing to divide, and the result is 0.
    pub fn finish(acc: (u32, i64)) -> (r: i64)
        ensures
            r == average(acc.1 as int, acc.0 as int),
    {
        let (count, sum) = acc;
        if count == 0 {
            0
        } else if sum >= 0 {
            (sum as u64 / count as u64) as i64
        } else {
            let magnitude = (-(sum as i128)) as u64;
            let q = magnitude / count as u64;
            (-(q as i128)) as i64
        }
    }
}

/// Number of values seen; the values themselves are ignored.
pub struct Count;

impl Count {
    pub fn fold(acc: i64, _n: i64) -> (r: i64)
        requires
            acc < i64::MAX,
        ensures
            r == acc + 1,
    {
        acc + 1
    }

    pub fn finish(acc: i64) -> (r: i64)
        ensures
            r == acc,
    {
        acc
    }
}

} // verus!
