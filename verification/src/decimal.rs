//! Decimal numbers as ASCII digits.

use vstd::prelude::*;
use vstd::slice::slice_subrange;

verus! {

/// The byte `0`.
pub const ZERO: u8 = 48;

/// The byte `+`.
pub const PLUS: u8 = 43;

/// Whether `b` is one of the bytes `0` to `9`.
pub open spec fn is_digit(b: u8) -> bool {
    48 <= b <= 57
}

/// Whether `s` holds digits only.
pub open spec fn all_digits(s: Seq<u8>) -> bool {
    forall|i: int| 0 <= i < s.len() ==> is_digit(#[trigger] s[i])
}

/// `n` written in decimal without leading zeros.
pub open spec fn decimal(n: nat) -> Seq<u8>
    decreases n,
{
    if n < 10 {
        seq![(48 + n) as u8]
    } else {
        decimal(n / 10).push((48 + n % 10) as u8)
    }
}

/// The number that the digits of `s` spell, most significant digit first.
pub open spec fn decimal_value(s: Seq<u8>) -> nat
    decreases s.len(),
{
    if s.len() == 0 {
        0
    } else {
        decimal_value(s.drop_last()) * 10 + (s.last() - 48) as nat
    }
}

/// What a run of digits spells as an unsigned 64-bit number. An empty run,
/// a run with another byte in it and a number that does not fit spell nothing.
pub open spec fn spelled(digits: Seq<u8>) -> Option<u64> {
    if digits.len() > 0 && all_digits(digits) && decimal_value(digits) <= u64::MAX {
        Some(decimal_value(digits) as u64)
    } else {
        None
    }
}

/// What `s` spells as an unsigned 64-bit number: a run of digits, after an
/// optional plus sign.
pub open spec fn parsed(s: Seq<u8>) -> Option<u64> {
    if s.len() > 0 && s[0] == PLUS {
        spelled(s.skip(1))
    } else {
        spelled(s)
    }
}

/// Writing a number and reading it back gives the number: its decimal form
/// is a non-empty run of digits that spell it.
pub proof fn lemma_decimal_spells(n: nat)
    ensures
        decimal(n).len() >= 1,
        all_digits(decimal(n)),
        decimal_value(decimal(n)) == n,
    decreases n,
{
    if n < 10 {
        assert(decimal(n).drop_last() =~= Seq::<u8>::empty());
        assert(decimal_value(decimal(n).drop_last()) == 0);
    } else {
        lemma_decimal_spells(n / 10);
        assert(decimal(n).drop_last() =~= decimal(n / 10));
    }
}

/// A decimal form is ten digits wide exactly for the numbers from
/// 1 000 000 000 to 9 999 999 999.
pub proof fn lemma_ten_digits(n: nat)
    ensures
        decimal(n).len() == 10 <==> 1_000_000_000 <= n <= 9_999_999_999,
{
    reveal_with_fuel(decimal, 12);
}

/// The digits read so far never spell more than the whole.
proof fn lemma_prefix_value(s: Seq<u8>, i: int)
    requires
        0 <= i <= s.len(),
        all_digits(s),
    ensures
        decimal_value(s.take(i)) <= decimal_value(s),
    decreases s.len() - i,
{
    if i < s.len() {
        lemma_prefix_value(s, i + 1);
        lemma_value_step(s, i);
    } else {
        assert(s.take(i) =~= s);
    }
}

/// Reading one more digit multiplies by ten and adds the digit.
proof fn lemma_value_step(s: Seq<u8>, i: int)
    requires
        0 <= i < s.len(),
    ensures
        decimal_value(s.take(i + 1)) == decimal_value(s.take(i)) * 10 + (s[i] - 48) as nat,
{
    assert(s.take(i + 1).drop_last() =~= s.take(i));
}

/// The bytes still to come when `rest` is what remains of a number whose
/// low digits were taken off.
spec fn leading(rest: nat) -> Seq<u8> {
    if rest == 0 {
        Seq::empty()
    } else {
        decimal(rest)
    }
}

/// Appends `n` in decimal, without leading zeros, to `out`.
pub fn push_decimal(out: &mut Vec<u8>, n: u64)
    ensures
        final(out)@ == old(out)@ + decimal(n as nat),
{
    let mut low: Vec<u8> = Vec::new();
    low.push(ZERO + (n % 10) as u8);
    let mut rest: u64 = n / 10;
    assert(decimal(n as nat) =~= leading(rest as nat) + low@.reverse());
    while rest > 0
        invariant
            decimal(n as nat) == leading(rest as nat) + low@.reverse(),
        decreases rest,
    {
        let ghost before = low@;
        low.push(ZERO + (rest % 10) as u8);
        assert(low@.reverse() =~= seq![low@.last()] + before.reverse());
        assert(leading(rest as nat) =~= leading((rest / 10) as nat) + seq![low@.last()]);
        rest = rest / 10;
    }
    assert(decimal(n as nat) =~= low@.reverse());
    let mut k: usize = low.len();
    while k > 0
        invariant
            k <= low@.len(),
            out@ == old(out)@ + low@.reverse().take(low@.len() - k),
        decreases k,
    {
        k -= 1;
        out.push(low[k]);
        assert(low@.reverse().take(low@.len() - k) =~= low@.reverse().take(low@.len() - k - 1).push(
            low@[k as int],
        ));
    }
    assert(low@.reverse().take(low@.len() as int) =~= low@.reverse());
}

/// Reads an unsigned 64-bit number: an optional plus sign, then at least one
/// digit. Returns nothing for any other input and for a number that does
/// not fit.
pub fn parse_u64(s: &[u8]) -> (r: Option<u64>)
    ensures
        r == parsed(s@),
{
    if s.len() > 0 && s[0] == PLUS {
        parse_digits(slice_subrange(s, 1, s.len()))
    } else {
        parse_digits(s)
    }
}

/// Reads an unsigned 64-bit number written as digits only.
pub fn parse_digits(digits: &[u8]) -> (r: Option<u64>)
    ensures
        r == spelled(digits@),
{
    if digits.len() == 0 {
        return None;
    }
    let mut acc: u64 = 0;
    let mut i: usize = 0;
    while i < digits.len()
        invariant
            i <= digits@.len(),
            forall|j: int| 0 <= j < i ==> is_digit(#[trigger] digits@[j]),
            acc == decimal_value(digits@.take(i as int)),
        decreases digits@.len() - i,
    {
        let b: u8 = digits[i];
        if b < ZERO || b > 57 {
            assert(!is_digit(digits@[i as int]));
            return None;
        }
        proof {
            lemma_value_step(digits@, i as int);
            if all_digits(digits@) {
                lemma_prefix_value(digits@, i + 1);
            }
        }
        let scaled: u64 = match acc.checked_mul(10) {
            Some(v) => v,
            None => {
                return None;
            },
        };
        acc = match scaled.checked_add((b - ZERO) as u64) {
            Some(v) => v,
            None => {
                return None;
            },
        };
        i += 1;
    }
    assert(digits@.take(i as int) =~= digits@);
    Some(acc)
}

} // verus!
