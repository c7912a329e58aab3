//! Integers as decimal text, the payload of an integer element.

use vstd::prelude::*;

verus! {

/// The ASCII decimal digits of `n`, without leading zeros.
pub open spec fn digits(n: nat) -> Seq<u8>
    decreases n,
{
    if n < 10 {
        seq![(48 + n) as u8]
    } else {
        digits(n / 10).push((48 + n % 10) as u8)
    }
}

/// The decimal text of `v`: a minus sign where it is negative, then the
/// digits of its magnitude.
pub open spec fn decimal(v: int) -> Seq<u8> {
    if v < 0 {
        seq![45u8] + digits((-v) as nat)
    } else {
        digits(v as nat)
    }
}

/// Appends the decimal digits of `n` to `out`.
pub fn push_digits(out: &mut Vec<u8>, n: u64)
    ensures
        final(out)@ == old(out)@ + digits(n as nat),
    decreases n,
{
    if n < 10 {
        out.push(48 + n as u8);
        assert(final(out)@ =~= old(out)@ + digits(n as nat));
    } else {
        push_digits(out, n / 10);
        out.push(48 + (n % 10) as u8);
        assert(final(out)@ =~= old(out)@ + digits(n as nat));
    }
}

/// Appends the decimal text of `v` to `out`.
pub fn push_decimal(out: &mut Vec<u8>, v: i64)
    ensures
        final(out)@ == old(out)@ + decimal(v as int),
{
    if v < 0 {
        out.push(45u8);
        let magnitude: u64 = if v == i64::MIN {
            9223372036854775808u64
        } else {
            (-v) as u64
        };
        push_digits(out, magnitude);
        assert(final(out)@ =~= old(out)@ + decimal(v as int));
    } else {
        push_digits(out, v as u64);
    }
}

/// The digits of a number are at least one byte, and each is an ASCII digit.
pub proof fn lemma_digits_are_digits(n: nat)
    ensures
        digits(n).len() >= 1,
        forall|i: int| 0 <= i < digits(n).len() ==> 48 <= #[trigger] digits(n)[i] <= 57,
    decreases n,
{
    if n >= 10 {
        lemma_digits_are_digits(n / 10);
    }
}

/// Two numbers with the same digits are the same number.
pub proof fn lemma_digits_injective(a: nat, b: nat)
    requires
        digits(a) == digits(b),
    ensures
        a == b,
    decreases a,
{
    lemma_digits_are_digits(a / 10);
    lemma_digits_are_digits(b / 10);
    if a >= 10 {
        assert(digits(a).len() == digits(a / 10).len() + 1);
        if b < 10 {
            assert(digits(b).len() == 1);
        }
        assert(b >= 10);
        assert(digits(a).drop_last() =~= digits(a / 10));
        assert(digits(b).drop_last() =~= digits(b / 10));
        assert(digits(a).last() == (48 + a % 10) as u8);
        assert(digits(b).last() == (48 + b % 10) as u8);
        lemma_digits_injective(a / 10, b / 10);
    } else {
        assert(digits(a).len() == 1);
        if b >= 10 {
            assert(digits(b).len() == digits(b / 10).len() + 1);
        }
        assert(b < 10);
        assert(digits(a)[0] == (48 + a) as u8);
        assert(digits(b)[0] == (48 + b) as u8);
    }
}

/// Two integers with the same decimal text are the same integer.
pub proof fn lemma_decimal_injective(a: int, b: int)
    requires
        decimal(a) == decimal(b),
    ensures
        a == b,
{
    if a < 0 {
        lemma_digits_are_digits((-a) as nat);
        assert(decimal(a)[0] == 45);
        if b < 0 {
            lemma_digits_are_digits((-b) as nat);
            assert(decimal(a).skip(1) =~= digits((-a) as nat));
            assert(decimal(b).skip(1) =~= digits((-b) as nat));
            lemma_digits_injective((-a) as nat, (-b) as nat);
        } else {
            lemma_digits_are_digits(b as nat);
            assert(decimal(b)[0] >= 48);
        }
    } else {
        lemma_digits_are_digits(a as nat);
        assert(decimal(a)[0] >= 48);
        if b < 0 {
            lemma_digits_are_digits((-b) as nat);
            assert(decimal(b)[0] == 45);
        } else {
            lemma_digits_injective(a as nat, b as nat);
        }
    }
}

} // verus!
