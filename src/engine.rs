//! The fold engine: one strategy together with its accumulator, fed one
//! token at a time and asked once for the formatted result.
use vstd::prelude::*;
use crate::decimal::{decimal, format_int, parse_int, parsed};
use crate::strategy::{average, Avg, Count, Sum};

verus! {

/// A strategy tag carrying the accumulator of that strategy.
///
/// An engine is meant to be used once: `fold` for every token, then `finish`.
/// `finish` does not change the accumulator, so calling it again gives the
/// same text.
#[derive(Clone, Copy, Debug, PartialEq, Eq, Structural)]
pub enum DispatchedFoldOperation {
    Sum(i64),
    Avg(u32, i64),
    Count(i64),
}

/// A token that is not a decimal integer in the signed 64-bit range.
#[derive(Clone, Copy, Debug, PartialEq, Eq, Structural)]
pub struct ParseError;

/// An operation name that names no strategy.
#[derive(Clone, Copy, Debug, PartialEq, Eq, Structural)]
pub struct ConfigurationError;

/// The engine that an operation name selects, with its accumulator at zero.
pub open spec fn selected(name: Seq<char>) -> Option<DispatchedFoldOperation> {
    if name == "sum"@ {
        Some(DispatchedFoldOperation::Sum(0))
    } else if name == "avg"@ {
        Some(DispatchedFoldOperation::Avg(0, 0))
    } else if name == "count"@ {
        Some(DispatchedFoldOperation::Count(0))
    } else {
        None
    }
}

fn same_text(a: &str, b: &str) -> (r: bool)
    ensures
        r == (a@ == b@),
{
    let n = a.unicode_len();
    if n != b.unicode_len() {
        return false;
    }
    let mut i: usize = 0;
    while i < n
        invariant
            n == a@.len(),
            n == b@.len(),
            0 <= i <= n,
            forall|k: int| 0 <= k < i ==> a@[k] == b@[k],
        decreases n - i,
    {
        if a.get_char(i) != b.get_char(i) {
            return false;
        }
        i = i + 1;
    }
    assert(a@ =~= b@);
    true
}

impl DispatchedFoldOperation {
    /// Whether folding `n` in keeps the accumulator within its integer types.
    pub open spec fn fits(self, n: i64) -> bool {
        match self {
            DispatchedFoldOperation::Sum(a) => i64::MIN <= a + n <= i64::MAX,
            DispatchedFoldOperation::Avg(c, s) => c < u32::MAX && i64::MIN <= s + n <= i64::MAX,
            DispatchedFoldOperation::Count(a) => a < i64::MAX,
        }
    }

    /// The engine after folding in the number `n`.
    pub open spec fn apply(self, n: i64) -> Self {
        match self {
            DispatchedFoldOperation::Sum(a) => DispatchedFoldOperation::Sum((a + n) as i64),
            DispatchedFoldOperation::Avg(c, s) => DispatchedFoldOperation::Avg(
                (c + 1) as u32,
                (s + n) as i64,
            ),
            DispatchedFoldOperation::Count(a) => DispatchedFoldOperation::Count((a + 1) as i64),
        }
    }

    /// Whether the token `t` can be folded in: it is no number, or a number
    /// that fits.
    pub open spec fn can_take(self, t: Seq<char>) -> bool {
        match parsed(t) {
            Some(n) => self.fits(n),
            None => true,
        }
    }

    /// The engine after one token: a number is folded in, anything else
    /// leaves it as it was.
    pub open spec fn step(self, t: Seq<char>) -> Self {
        match parsed(t) {
            Some(n) => self.apply(n),
            None => self,
        }
    }

    /// The engine after a stream of tokens, in order.
    pub open spec fn feed(self, ts: Seq<Seq<char>>) -> Self
        decreases ts.len(),
    {
        if ts.len() == 0 {
            self
        } else {
            self.feed(ts.drop_last()).step(ts.last())
        }
    }

    /// Whether every token of the stream can be taken in turn.
    pub open spec fn feed_fits(self, ts: Seq<Seq<char>>) -> bool
        decreases ts.len(),
    {
        if ts.len() == 0 {
            true
        } else {
            self.feed_fits(ts.drop_last()) && self.feed(ts.drop_last()).can_take(ts.last())
        }
    }

    /// The number that `finish` writes.
    pub open spec fn result(self) -> int {
        match self {
            DispatchedFoldOperation::Sum(a) => a as int,
            DispatchedFoldOperation::Avg(c, s) => average(s as int, c as int),
            DispatchedFoldOperation::Count(a) => a as int,
        }
    }

    /// Selects a strategy by name: `sum`, `avg` or `count`.
    pub fn from_name(name: &str) -> (r: Result<Self, ConfigurationError>)
        ensures
            r is Ok <==> selected(name@) is Some,
            r is Ok ==> selected(name@) == Some(r->Ok_0),
    {
        if same_text(name, "sum") {
            Ok(DispatchedFoldOperation::Sum(0))
        } else if same_text(name, "avg") {
            Ok(DispatchedFoldOperation::Avg(0, 0))
        } else if same_text(name, "count") {
            Ok(DispatchedFoldOperation::Count(0))
        } else {
            Err(ConfigurationError)
        }
    }

    /// Whether `n` can be folded in without leaving the accumulator's range.
    pub fn accepts(&self, n: i64) -> (r: bool)
        ensures
            r == self.fits(n),
    {
        match *self {
            DispatchedFoldOperation::Sum(a) => {
                let t = a as i128 + n as i128;
                i64::MIN as i128 <= t && t <= i64::MAX as i128
            },
            DispatchedFoldOperation::Avg(c, s) => {
                let t = s as i128 + n as i128;
                c < u32::MAX && i64::MIN as i128 <= t && t <= i64::MAX as i128
            },
            DispatchedFoldOperation::Count(a) => a < i64::MAX,
        }
    }

    /// Reads one trimmed token. A decimal integer is folded into the
    /// accumulator; anything else is reported and changes nothing.
    pub fn fold(&mut self, input: &str) -> (r: Result<(), ParseError>)
        requires
            old(self).can_take(input@),
        ensures
            r is Ok <==> parsed(input@) is Some,
            *final(self) == old(self).step(input@),
    {
        let num = match parse_int(input) {
            Some(n) => n,
            None => return Err(ParseError),
        };
        *self = match *self {
            DispatchedFoldOperation::Sum(a) => DispatchedFoldOperation::Sum(Sum::fold(a, num)),
            DispatchedFoldOperation::Avg(c, s) => {
                let (c, s) = Avg::fold((c, s), num);
                DispatchedFoldOperation::Avg(c, s)
            },
            DispatchedFoldOperation::Count(a) => DispatchedFoldOperation::Count(
                Count::fold(a, num),
            ),
        };
        Ok(())
    }

    /// The aggregate in base 10. An average over no numbers is 0.
    pub fn finish(&self) -> (r: String)
        ensures
            r@ == decimal(self.result()),
    {
        let result = match *self {
            DispatchedFoldOperation::Sum(a) => Sum::finish(a),
            DispatchedFoldOperation::Avg(c, s) => Avg::finish((c, s)),
            DispatchedFoldOperation::Count(a) => Count::finish(a),
        };
        format_int(result)
    }
}

} // verus!
