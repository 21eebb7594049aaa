//! Decimal integer text: the token grammar read by the fold engine and the
//! text it writes back.
use vstd::prelude::*;
use vstd::string::is_ascii_spec_bytes;
use vstd::string::StringExecFns;

verus! {

/// The ASCII code of `-`.
const MINUS: u8 = 45;

/// The ASCII code of `0`.
const ZERO: u8 = 48;

/// The ASCII code of `9`.
const NINE: u8 = 57;

/// An ASCII decimal digit.
pub open spec fn is_digit(c: char) -> bool {
    '0' <= c && c <= '9'
}

/// The value of a digit character.
pub open spec fn digit_value(c: char) -> int {
    c as int - '0' as int
}

/// Every character is a decimal digit.
pub open spec fn all_digits(s: Seq<char>) -> bool {
    forall|i: int| 0 <= i < s.len() ==> is_digit(#[trigger] s[i])
}

/// The number written by a run of digits, most significant first.
pub open spec fn digits_value(s: Seq<char>) -> int
    decreases s.len(),
{
    if s.len() == 0 {
        0
    } else {
        10 * digits_value(s.drop_last()) + digit_value(s.last())
    }
}

/// The integer a token denotes: an optional leading `-` followed by one or
/// more decimal digits, nothing else.
pub open spec fn token_value(s: Seq<char>) -> Option<int> {
    if s.len() > 0 && s[0] == '-' {
        let d = s.skip(1);
        if d.len() > 0 && all_digits(d) {
            Some(-digits_value(d))
        } else {
            None
        }
    } else if s.len() > 0 && all_digits(s) {
        Some(digits_value(s))
    } else {
        None
    }
}

pub open spec fn in_i64(v: int) -> bool {
    i64::MIN <= v <= i64::MAX
}

/// The signed 64-bit integer a token denotes, if it denotes one in range.
pub open spec fn parsed(s: Seq<char>) -> Option<i64> {
    match token_value(s) {
        Some(v) => if in_i64(v) {
            Some(v as i64)
        } else {
            None
        },
        None => None,
    }
}

proof fn lemma_digits_value_nonneg(s: Seq<char>)
    requires
        all_digits(s),
    ensures
        digits_value(s) >= 0,
    decreases s.len(),
{
    if s.len() > 0 {
        lemma_digits_value_nonneg(s.drop_last());
    }
}

/// A run of digits is worth at least as much as any of its prefixes.
proof fn lemma_digits_value_prefix(s: Seq<char>, k: int)
    requires
        all_digits(s),
        0 <= k <= s.len(),
    ensures
        digits_value(s.take(k)) <= digits_value(s),
    decreases s.len(),
{
    if k < s.len() {
        let p = s.drop_last();
        assert(p.take(k) =~= s.take(k));
        lemma_digits_value_prefix(p, k);
        lemma_digits_value_nonneg(p);
    } else {
        assert(s.take(k) =~= s);
    }
}

/// Reads a token as a signed 64-bit decimal integer. Surrounding whitespace,
/// a leading `+` and out-of-range values are all rejected.
pub fn parse_int(s: &str) -> (r: Option<i64>)
    ensures
        r == parsed(s@),
{
    let ghost t = s@;
    if !s.is_ascii() {
        proof {
            let j = choose|j: int| 0 <= j < t.len() && !('\0' <= #[trigger] t[j] <= '\u{7f}');
            if t[0] != '-' {
                assert(!is_digit(t[j]));
            } else {
                assert(!is_digit(t.skip(1)[j - 1]));
            }
        }
        return None;
    }
    let b = s.as_bytes();
    proof {
        is_ascii_spec_bytes(s);
        vstd::utf8::is_ascii_chars_nat_bound(t);
    }
    assert(forall|i: int| 0 <= i < t.len() ==> b@[i] as int == #[trigger] t[i] as int);
    let n = b.len();
    if n == 0 {
        return None;
    }
    let neg = b[0] == MINUS;
    let start: usize = if neg { 1 } else { 0 };
    if start == n {
        return None;
    }
    let limit: u64 = if neg { 9223372036854775808u64 } else { 9223372036854775807u64 };
    let ghost d = t.subrange(start as int, n as int);
    let mut mag: u64 = 0;
    let mut i: usize = start;
    while i < n
        invariant
            start <= i <= n,
            t == s@,
            n == t.len(),
            neg <==> t[0] == '-',
            start == (if neg { 1usize } else { 0usize }),
            limit == (if neg { 9223372036854775808u64 } else { 9223372036854775807u64 }),
            n == b@.len(),
            d == t.subrange(start as int, n as int),
            forall|k: int| 0 <= k < t.len() ==> b@[k] as int == #[trigger] t[k] as int,
            all_digits(d.take(i - start)),
            mag == digits_value(d.take(i - start)),
            mag <= limit,
        decreases n - i,
    {
        let c = b[i];
        if c < ZERO || c > NINE {
            proof {
                assert(d[i - start] == t[i as int]);
                assert(!is_digit(d[i - start]));
                assert(!all_digits(d));
                if !neg {
                    assert(d =~= t);
                } else {
                    assert(d =~= t.skip(1));
                }
            }
            return None;
        }
        let digit = (c - ZERO) as u64;
        let next: u128 = mag as u128 * 10 + digit as u128;
        proof {
            let p = d.take(i + 1 - start);
            assert(p.drop_last() =~= d.take(i - start));
            assert(p.last() == t[i as int]);
            assert(digits_value(p) == next);
        }
        if next > limit as u128 {
            proof {
                if !neg {
                    assert(d =~= t);
                } else {
                    assert(d =~= t.skip(1));
                }
                if all_digits(d) {
                    lemma_digits_value_prefix(d, i + 1 - start);
                }
            }
            return None;
        }
        mag = next as u64;
        i = i + 1;
    }
    proof {
        assert(d.take(n - start) =~= d);
        if !neg {
            assert(d =~= t);
        } else {
            assert(d =~= t.skip(1));
        }
    }
    if neg {
        Some((-(mag as i128)) as i64)
    } else {
        Some(mag as i64)
    }
}

/// The character of a decimal digit value.
pub open spec fn digit_char(d: int) -> char {
    if d == 0 {
        '0'
    } else if d == 1 {
        '1'
    } else if d == 2 {
        '2'
    } else if d == 3 {
        '3'
    } else if d == 4 {
        '4'
    } else if d == 5 {
        '5'
    } else if d == 6 {
        '6'
    } else if d == 7 {
        '7'
    } else if d == 8 {
        '8'
    } else {
        '9'
    }
}

/// The base-10 digits of a natural number, without leading zeros.
pub open spec fn digits_of(n: nat) -> Seq<char>
    decreases n,
{
    if n < 10 {
        seq![digit_char(n as int)]
    } else {
        digits_of(n / 10).push(digit_char((n % 10) as int))
    }
}

/// The base-10 text of an integer: a `-` before the digits of a negative one.
pub open spec fn decimal(v: int) -> Seq<char> {
    if v < 0 {
        seq!['-'] + digits_of((-v) as nat)
    } else {
        digits_of(v as nat)
    }
}

proof fn lemma_digits_of(n: nat)
    ensures
        digits_of(n).len() > 0,
        all_digits(digits_of(n)),
        digits_value(digits_of(n)) == n,
    decreases n,
{
    if n >= 10 {
        lemma_digits_of(n / 10);
        let s = digits_of(n);
        assert(s.drop_last() =~= digits_of(n / 10));
        assert(digit_value(digit_char((n % 10) as int)) == n % 10);
        assert(n == 10 * (n / 10) + n % 10);
        assert(s.last() == digit_char((n % 10) as int));
        assert(digits_value(s) == 10 * digits_value(s.drop_last()) + digit_value(s.last()));
        assert forall|i: int| 0 <= i < s.len() implies is_digit(#[trigger] s[i]) by {
            if i < s.len() - 1 {
                assert(s[i] == digits_of(n / 10)[i]);
            }
        }
    } else {
        let s = digits_of(n);
        assert(s.drop_last() =~= Seq::<char>::empty());
        assert(digits_value(s.drop_last()) == 0);
        assert(digit_value(digit_char(n as int)) == n);
    }
}

/// Reading back the text of an integer gives that integer.
pub proof fn law_parse_reads_back_format(v: i64)
    ensures
        parsed(decimal(v as int)) == Some(v),
{
    let t = decimal(v as int);
    if v < 0 {
        lemma_digits_of((-v) as nat);
        assert(t.skip(1) =~= digits_of((-v) as nat));
    } else {
        lemma_digits_of(v as nat);
        assert(t[0] != '-');
    }
}

fn digit_text(d: u64) -> (r: &'static str)
    requires
        d < 10,
    ensures
        r@ == seq![digit_char(d as int)],
{
    proof {
        reveal_strlit("0");
        reveal_strlit("1");
        reveal_strlit("2");
        reveal_strlit("3");
        reveal_strlit("4");
        reveal_strlit("5");
        reveal_strlit("6");
        reveal_strlit("7");
        reveal_strlit("8");
        reveal_strlit("9");
    }
    match d {
        0 => "0",
        1 => "1",
        2 => "2",
        3 => "3",
        4 => "4",
        5 => "5",
        6 => "6",
        7 => "7",
        8 => "8",
        _ => "9",
    }
}

fn push_digits(out: &mut String, n: u64)
    ensures
        final(out)@ == old(out)@ + digits_of(n as nat),
    decreases n,
{
    if n >= 10 {
        push_digits(out, n / 10);
    }
    out.append(digit_text(n % 10));
    assert(out@ =~= old(out)@ + digits_of(n as nat));
}

/// Writes an integer in base 10, with a leading `-` when it is negative.
pub fn format_int(v: i64) -> (r: String)
    ensures
        r@ == decimal(v as int),
{
    let mut out = String::new();
    if v < 0 {
        proof {
            reveal_strlit("-");
        }
        out.append("-");
        push_digits(&mut out, (-(v as i128)) as u64);
    } else {
        push_digits(&mut out, v as u64);
    }
    assert(out@ =~= decimal(v as int));
    out
}

} // verus!
