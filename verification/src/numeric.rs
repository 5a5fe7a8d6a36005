//! Decimal text of integers, as Rust's `Display` and serde_json write them.

use vstd::prelude::*;

verus! {

/// The ASCII digit for `d < 10`.
pub open spec fn digit(d: int) -> char {
    (('0' as int) + d) as char
}

/// The decimal digits of `n`, without leading zeros ("0" for zero).
pub open spec fn decimal(n: nat) -> Seq<char>
    decreases n,
{
    if n < 10 {
        seq![digit(n as int)]
    } else {
        decimal(n / 10) + seq![digit((n % 10) as int)]
    }
}

/// The decimal text of a signed integer: a minus sign before the digits of
/// its magnitude when negative.
pub open spec fn signed_decimal(i: int) -> Seq<char> {
    if i < 0 {
        seq!['-'] + decimal((-i) as nat)
    } else {
        decimal(i as nat)
    }
}

/// Exactly six decimal digits of `n < 1_000_000`, zero-padded on the left
/// (what `format!("{n:06}")` writes).
pub open spec fn six_digits(n: nat) -> Seq<char> {
    seq![
        digit((n / 100000) as int),
        digit(((n / 10000) % 10) as int),
        digit(((n / 1000) % 10) as int),
        digit(((n / 100) % 10) as int),
        digit(((n / 10) % 10) as int),
        digit((n % 10) as int),
    ]
}

pub fn digit_char(d: u64) -> (c: char)
    requires
        d < 10,
    ensures
        c == digit(d as int),
{
    let b: u8 = 48 + d as u8;
    assert(b as int == ('0' as int) + d);
    b as char
}

/// Appends the decimal digits of `n`.
pub fn push_decimal(n: u64, out: &mut Vec<char>)
    ensures
        final(out)@ == old(out)@ + decimal(n as nat),
    decreases n,
{
    if n < 10 {
        out.push(digit_char(n));
        assert(decimal(n as nat) =~= seq![digit(n as int)]);
    } else {
        push_decimal(n / 10, out);
        out.push(digit_char(n % 10));
        assert(decimal(n as nat) =~= decimal((n / 10) as nat) + seq![digit((n % 10) as int)]);
    }
}

/// Appends the decimal text of a signed integer.
pub fn push_signed_decimal(i: i64, out: &mut Vec<char>)
    ensures
        final(out)@ == old(out)@ + signed_decimal(i as int),
{
    if i < 0 {
        out.push('-');
        let mag: u64 = (-(i as i128)) as u64;
        push_decimal(mag, out);
        assert(final(out)@ =~= old(out)@ + signed_decimal(i as int)) by {
            assert(mag as nat == (-(i as int)) as nat);
        }
    } else {
        push_decimal(i as u64, out);
    }
}

/// Appends exactly six zero-padded decimal digits of `n < 1_000_000`.
pub fn push_six_digits(n: u64, out: &mut Vec<char>)
    requires
        n < 1_000_000,
    ensures
        final(out)@ == old(out)@ + six_digits(n as nat),
{
    out.push(digit_char(n / 100000));
    out.push(digit_char((n / 10000) % 10));
    out.push(digit_char((n / 1000) % 10));
    out.push(digit_char((n / 100) % 10));
    out.push(digit_char((n / 10) % 10));
    out.push(digit_char(n % 10));
    assert(final(out)@ =~= old(out)@ + six_digits(n as nat));
}

/// `c` is an ASCII decimal digit.
pub open spec fn is_ascii_digit(c: char) -> bool {
    '0' <= c && c <= '9'
}

/// The value of a run of decimal digits.
pub open spec fn digits_value(t: Seq<char>) -> nat
    decreases t.len(),
{
    if t.len() == 0 {
        0
    } else {
        digits_value(t.drop_last()) * 10 + ((t.last() as int) - ('0' as int)) as nat
    }
}

/// The text after an optional leading `+` (a lone `+` is kept).
pub open spec fn unsigned_digits(s: Seq<char>) -> Seq<char> {
    if s.len() > 1 && s[0] == '+' {
        s.drop_first()
    } else {
        s
    }
}

/// Every character is an ASCII decimal digit.
pub open spec fn all_ascii_digits(t: Seq<char>) -> bool {
    forall|i: int| 0 <= i < t.len() ==> is_ascii_digit(#[trigger] t[i])
}

/// What `str::parse::<u64>` reads: an optional `+`, then one or more
/// decimal digits whose value fits in 64 bits; nothing else.
pub open spec fn u64_parsed(s: Seq<char>) -> Option<u64> {
    let t = unsigned_digits(s);
    if t.len() > 0 && all_ascii_digits(t) && digits_value(t) <= u64::MAX {
        Some(digits_value(t) as u64)
    } else {
        None
    }
}

proof fn lemma_digits_value_grows(t: Seq<char>, k: int)
    requires
        0 <= k <= t.len(),
        forall|i: int| 0 <= i < t.len() ==> is_ascii_digit(#[trigger] t[i]),
    ensures
        digits_value(t.take(k)) <= digits_value(t),
    decreases t.len() - k,
{
    if k < t.len() {
        lemma_digits_value_grows(t, k + 1);
        assert(t.take(k + 1).drop_last() =~= t.take(k));
        assert(is_ascii_digit(t[k]));
        assert(t.take(k + 1).last() == t[k]);
    } else {
        assert(t.take(k) =~= t);
    }
}

/// Parses an unsigned 64-bit decimal, as `str::parse::<u64>` does.
pub fn parse_u64(s: &str) -> (r: Option<u64>)
    ensures
        r == u64_parsed(s@),
{
    let cs = crate::text::chars_of(s);
    let start: usize = if cs.len() > 1 && cs[0] == '+' {
        1
    } else {
        0
    };
    let ghost t = unsigned_digits(s@);
    assert(t =~= cs@.skip(start as int));
    if start == cs.len() {
        return None;
    }
    let mut acc: u64 = 0;
    let mut i: usize = start;
    while i < cs.len()
        invariant
            start <= i <= cs.len(),
            t == unsigned_digits(s@),
            t =~= cs@.skip(start as int),
            forall|k: int| 0 <= k < i - start ==> is_ascii_digit(#[trigger] t[k]),
            acc == digits_value(t.take(i - start)),
        decreases cs.len() - i,
    {
        let c = cs[i];
        if c < '0' || c > '9' {
            proof {
                assert(t[i - start] == c);
                assert(!is_ascii_digit(t[i - start]));
                assert(!all_ascii_digits(t));
            }
            return None;
        }
        let d: u64 = ((c as u32) - 48) as u64;
        assert(t.take(i - start + 1).drop_last() =~= t.take(i - start));
        assert(t.take(i - start + 1).last() == c);
        if acc > 1844674407370955161 || (acc == 1844674407370955161 && d > 5) {
            proof {
                let v = digits_value(t.take(i - start + 1));
                assert(v > u64::MAX);
                if forall|k: int| 0 <= k < t.len() ==> is_ascii_digit(#[trigger] t[k]) {
                    lemma_digits_value_grows(t, i - start + 1);
                    assert(digits_value(t) > u64::MAX);
                }
            }
            return None;
        }
        acc = acc * 10 + d;
        i += 1;
    }
    assert(t.take(t.len() as int) =~= t);
    Some(acc)
}

/// The decimal digits of a number are ASCII digits, at least one of them.
pub proof fn lemma_decimal_digits(n: nat)
    ensures
        decimal(n).len() >= 1,
        forall|i: int| 0 <= i < decimal(n).len() ==> is_ascii_digit(#[trigger] decimal(n)[i]),
        n >= 10 ==> decimal(n).len() >= 2,
    decreases n,
{
    if n >= 10 {
        lemma_decimal_digits(n / 10);
        let d = decimal(n / 10);
        assert forall|i: int| 0 <= i < decimal(n).len() implies is_ascii_digit(
            #[trigger] decimal(n)[i],
        ) by {
            if i < d.len() {
                assert(decimal(n)[i] == d[i]);
            } else {
                assert(decimal(n)[i] == digit((n % 10) as int));
            }
        }
    }
}

/// Different numbers have different decimal digits.
pub proof fn lemma_decimal_injective(n: nat, m: nat)
    requires
        decimal(n) == decimal(m),
    ensures
        n == m,
    decreases n,
{
    lemma_decimal_digits(n);
    lemma_decimal_digits(m);
    if n < 10 && m < 10 {
        assert(decimal(n)[0] == digit(n as int));
        assert(decimal(m)[0] == digit(m as int));
        assert((digit(n as int) as u32) == (digit(m as int) as u32));
    } else if n >= 10 && m >= 10 {
        let (a, b) = (decimal(n), decimal(m));
        assert(a.last() == digit((n % 10) as int));
        assert(b.last() == digit((m % 10) as int));
        assert((digit((n % 10) as int) as u32) == (digit((m % 10) as int) as u32));
        assert(a.drop_last() =~= decimal(n / 10));
        assert(b.drop_last() =~= decimal(m / 10));
        lemma_decimal_injective(n / 10, m / 10);
    }
}

/// The decimal text of a signed integer holds no character but a minus
/// sign and ASCII digits, and determines the integer.
pub proof fn lemma_signed_decimal(i: int, j: int)
    ensures
        forall|k: int|
            0 <= k < signed_decimal(i).len() ==> #[trigger] signed_decimal(i)[k] == '-'
                || is_ascii_digit(signed_decimal(i)[k]),
        signed_decimal(i) == signed_decimal(j) ==> i == j,
{
    if i < 0 {
        lemma_decimal_digits((-i) as nat);
        assert forall|k: int| 0 <= k < signed_decimal(i).len() implies #[trigger] signed_decimal(i)[k]
            == '-' || is_ascii_digit(signed_decimal(i)[k]) by {
            if k > 0 {
                assert(signed_decimal(i)[k] == decimal((-i) as nat)[k - 1]);
            }
        }
    } else {
        lemma_decimal_digits(i as nat);
    }
    if signed_decimal(i) == signed_decimal(j) {
        let (a, b) = (signed_decimal(i), signed_decimal(j));
        if i < 0 && j < 0 {
            assert(a.drop_first() =~= decimal((-i) as nat));
            assert(b.drop_first() =~= decimal((-j) as nat));
            lemma_decimal_injective((-i) as nat, (-j) as nat);
        } else if i >= 0 && j >= 0 {
            lemma_decimal_injective(i as nat, j as nat);
        } else if i < 0 {
            lemma_decimal_digits(j as nat);
            assert(a[0] == '-');
            assert(is_ascii_digit(b[0]));
        } else {
            lemma_decimal_digits((-j) as nat);
            assert(b[0] == '-');
            assert(is_ascii_digit(a[0]));
        }
    }
}

} // verus!
