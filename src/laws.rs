//! What holds of a whole stream of tokens fed to an engine.
use vstd::prelude::*;
use crate::decimal::parsed;
use crate::engine::DispatchedFoldOperation;
use crate::strategy::truncated_quotient;

verus! {

/// The numbers of a token stream, in order; tokens that are no number are
/// left out.
pub open spec fn numbers(ts: Seq<Seq<char>>) -> Seq<int>
    decreases ts.len(),
{
    if ts.len() == 0 {
        Seq::empty()
    } else {
        match parsed(ts.last()) {
            Some(n) => numbers(ts.drop_last()).push(n as int),
            None => numbers(ts.drop_last()),
        }
    }
}

/// The arithmetic sum of a sequence of integers.
pub open spec fn total(xs: Seq<int>) -> int
    decreases xs.len(),
{
    if xs.len() == 0 {
        0
    } else {
        total(xs.drop_last()) + xs.last()
    }
}

proof fn lemma_numbers_concat(a: Seq<Seq<char>>, b: Seq<Seq<char>>)
    ensures
        numbers(a + b) == numbers(a) + numbers(b),
    decreases b.len(),
{
    if b.len() == 0 {
        assert(a + b =~= a);
        assert(numbers(a) + numbers(b) =~= numbers(a));
    } else {
        assert((a + b).drop_last() =~= a + b.drop_last());
        lemma_numbers_concat(a, b.drop_last());
        match parsed(b.last()) {
            Some(n) => {
                assert(numbers(a + b) =~= numbers(a) + numbers(b));
            },
            None => {},
        }
    }
}

proof fn lemma_total_concat(x: Seq<int>, y: Seq<int>)
    ensures
        total(x + y) == total(x) + total(y),
    decreases y.len(),
{
    if y.len() == 0 {
        assert(x + y =~= x);
    } else {
        assert((x + y).drop_last() =~= x + y.drop_last());
        lemma_total_concat(x, y.drop_last());
    }
}

/// Feeding a stream moves each accumulator by the numbers in it: their total
/// and how many there are.
proof fn lemma_feed(s: DispatchedFoldOperation, ts: Seq<Seq<char>>)
    requires
        s.feed_fits(ts),
    ensures
        match (s, s.feed(ts)) {
            (DispatchedFoldOperation::Sum(a), DispatchedFoldOperation::Sum(b)) => b == a + total(
                numbers(ts),
            ),
            (DispatchedFoldOperation::Avg(c, x), DispatchedFoldOperation::Avg(d, y)) => d == c
                + numbers(ts).len() && y == x + total(numbers(ts)),
            (DispatchedFoldOperation::Count(a), DispatchedFoldOperation::Count(b)) => b == a
                + numbers(ts).len(),
            _ => false,
        },
    decreases ts.len(),
{
    if ts.len() > 0 {
        let p = ts.drop_last();
        lemma_feed(s, p);
        match parsed(ts.last()) {
            Some(n) => {
                assert(numbers(ts) == numbers(p).push(n as int));
                assert(numbers(ts).drop_last() =~= numbers(p));
                assert(total(numbers(ts)) == total(numbers(p)) + n);
            },
            None => {
                assert(numbers(ts) == numbers(p));
            },
        }
    }
}

/// Over any token stream, a sum engine started at zero ends at the
/// arithmetic sum of the numbers in it.
pub proof fn law_sum(ts: Seq<Seq<char>>)
    requires
        DispatchedFoldOperation::Sum(0).feed_fits(ts),
    ensures
        DispatchedFoldOperation::Sum(0).feed(ts).result() == total(numbers(ts)),
{
    lemma_feed(DispatchedFoldOperation::Sum(0), ts);
}

/// Over any token stream, a count engine started at zero ends at the number
/// of numbers in it.
pub proof fn law_count(ts: Seq<Seq<char>>)
    requires
        DispatchedFoldOperation::Count(0).feed_fits(ts),
    ensures
        DispatchedFoldOperation::Count(0).feed(ts).result() == numbers(ts).len(),
{
    lemma_feed(DispatchedFoldOperation::Count(0), ts);
}

/// Over any token stream holding at least one number, an average engine
/// started at zero ends at the sum of those numbers divided by how many
/// there are, rounded toward zero.
pub proof fn law_average(ts: Seq<Seq<char>>)
    requires
        DispatchedFoldOperation::Avg(0, 0).feed_fits(ts),
        numbers(ts).len() > 0,
    ensures
        DispatchedFoldOperation::Avg(0, 0).feed(ts).result() == truncated_quotient(
            total(numbers(ts)),
            numbers(ts).len() as int,
        ),
{
    lemma_feed(DispatchedFoldOperation::Avg(0, 0), ts);
}

/// Tokens that are no number change no engine: a stream of them leaves it
/// exactly as an empty stream does.
pub proof fn law_unparsed_tokens_ignored(s: DispatchedFoldOperation, ts: Seq<Seq<char>>)
    requires
        forall|i: int| 0 <= i < ts.len() ==> parsed(#[trigger] ts[i]) is None,
    ensures
        s.feed(ts) == s,
        s.feed(ts) == s.feed(Seq::empty()),
    decreases ts.len(),
{
    if ts.len() > 0 {
        let p = ts.drop_last();
        assert forall|i: int| 0 <= i < p.len() implies parsed(#[trigger] p[i]) is None by {
            assert(p[i] == ts[i]);
        }
        law_unparsed_tokens_ignored(s, p);
        assert(parsed(ts[ts.len() - 1]) is None);
    }
}

/// The order of two parts of a stream does not matter: the accumulator only
/// adds up values and counts them. Averages round only when the result is
/// taken, so this holds of every strategy, sums and counts included.
pub proof fn law_order_independent(
    s: DispatchedFoldOperation,
    a: Seq<Seq<char>>,
    b: Seq<Seq<char>>,
)
    requires
        s.feed_fits(a + b),
        s.feed_fits(b + a),
    ensures
        s.feed(a + b) == s.feed(b + a),
{
    lemma_feed(s, a + b);
    lemma_feed(s, b + a);
    lemma_numbers_concat(a, b);
    lemma_numbers_concat(b, a);
    lemma_total_concat(numbers(a), numbers(b));
    lemma_total_concat(numbers(b), numbers(a));
}

} // verus!
