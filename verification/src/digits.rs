//! Fixed-width and plain renderings of numbers as ASCII digits, and reading
//! decimal digits back.
use vstd::prelude::*;
use crate::bytes::{bytes_lt, lemma_bytes_lt_extend, lemma_bytes_lt_first_difference};

verus! {

broadcast use vstd::seq_lib::group_seq_properties;

/// The ASCII character of a digit below 16: `0`-`9`, then `a`-`f`.
pub open spec fn digit_byte(d: nat) -> u8 {
    if d < 10 {
        (48 + d) as u8
    } else {
        (87 + d) as u8
    }
}

/// `n` in `base`, in exactly `width` digits: zero-padded on the left, and the
/// high digits dropped when it has more.
pub open spec fn fixed_digits(n: nat, width: nat, base: nat) -> Seq<u8>
    decreases width,
{
    if width == 0 {
        seq![]
    } else {
        fixed_digits(n / base, (width - 1) as nat, base).push(digit_byte(n % base))
    }
}

/// `n` in decimal with no padding.
pub open spec fn dec_digits(n: nat) -> Seq<u8>
    decreases n,
{
    if n < 10 {
        seq![digit_byte(n)]
    } else {
        dec_digits(n / 10).push(digit_byte(n % 10))
    }
}

pub open spec fn is_dec_digit(b: u8) -> bool {
    48 <= b <= 57
}

pub open spec fn all_dec_digits(s: Seq<u8>) -> bool {
    forall|i: int| 0 <= i < s.len() ==> is_dec_digit(#[trigger] s[i])
}

/// The number that a string of decimal digits writes.
pub open spec fn dec_value(s: Seq<u8>) -> nat
    decreases s.len(),
{
    if s.len() == 0 {
        0
    } else {
        dec_value(s.drop_last()) * 10 + (s.last() - 48) as nat
    }
}

pub open spec fn pow_nat(base: nat, e: nat) -> nat
    decreases e,
{
    if e == 0 {
        1
    } else {
        base * pow_nat(base, (e - 1) as nat)
    }
}

fn digit_char(d: u64) -> (r: u8)
    requires
        d < 16,
    ensures
        r == digit_byte(d as nat),
{
    if d < 10 {
        (48 + d) as u8
    } else {
        (87 + d) as u8
    }
}

/// Append `n` in `base`, in exactly `width` digits.
pub fn push_fixed_digits(dst: &mut Vec<u8>, n: u64, width: usize, base: u64)
    requires
        2 <= base <= 16,
    ensures
        final(dst)@ == old(dst)@ + fixed_digits(n as nat, width as nat, base as nat),
    decreases width,
{
    if width > 0 {
        push_fixed_digits(dst, n / base, width - 1, base);
        dst.push(digit_char(n % base));
        assert(final(dst)@ =~= old(dst)@ + fixed_digits(n as nat, width as nat, base as nat));
    } else {
        assert(final(dst)@ =~= old(dst)@ + fixed_digits(n as nat, width as nat, base as nat));
    }
}

/// Append `n` in decimal, unpadded.
pub fn push_dec(dst: &mut Vec<u8>, n: u64)
    ensures
        final(dst)@ == old(dst)@ + dec_digits(n as nat),
    decreases n,
{
    if n >= 10 {
        push_dec(dst, n / 10);
    }
    dst.push(digit_char(n % 10));
    assert(final(dst)@ =~= old(dst)@ + dec_digits(n as nat));
}

proof fn lemma_dec_value_grows(s: Seq<u8>, i: int)
    requires
        0 <= i <= s.len(),
        all_dec_digits(s),
    ensures
        dec_value(s.subrange(0, i)) <= dec_value(s),
    decreases s.len() - i,
{
    if i < s.len() {
        lemma_dec_value_grows(s, i + 1);
        assert(s.subrange(0, i + 1).drop_last() =~= s.subrange(0, i));
    } else {
        assert(s.subrange(0, i) =~= s);
    }
}

/// Read a string of decimal digits as a `u64`: `None` when the number does
/// not fit, as `str::parse::<u64>` reports it.
pub fn parse_dec(s: &[u8]) -> (r: Option<u64>)
    requires
        all_dec_digits(s@),
    ensures
        match r {
            Some(v) => v as nat == dec_value(s@),
            None => dec_value(s@) > u64::MAX,
        },
{
    let mut acc: u64 = 0;
    let mut i: usize = 0;
    while i < s.len()
        invariant
            i <= s@.len(),
            all_dec_digits(s@),
            acc as nat == dec_value(s@.subrange(0, i as int)),
        decreases s@.len() - i,
    {
        let d = (s[i] - 48u8) as u64;
        assert(s@.subrange(0, i + 1).drop_last() =~= s@.subrange(0, i as int));
        if acc > (u64::MAX - d) / 10 {
            assert(acc * 10 + d > u64::MAX) by (nonlinear_arith)
                requires
                    acc > (u64::MAX - d) / 10,
                    d <= 9,
            ;
            proof {
                lemma_dec_value_grows(s@, i + 1);
            }
            return None;
        }
        assert(acc * 10 + d <= u64::MAX) by (nonlinear_arith)
            requires
                acc <= (u64::MAX - d) / 10,
                d <= 9,
        ;
        acc = acc * 10 + d;
        i = i + 1;
    }
    assert(s@.subrange(0, s@.len() as int) =~= s@);
    Some(acc)
}

/// Fixed-width digits are `width` long.
pub proof fn lemma_fixed_digits_len(n: nat, width: nat, base: nat)
    requires
        base >= 2,
    ensures
        fixed_digits(n, width, base).len() == width,
    decreases width,
{
    if width > 0 {
        lemma_fixed_digits_len(n / base, (width - 1) as nat, base);
        assert(fixed_digits(n, width, base) == fixed_digits(n / base, (width - 1) as nat, base).push(
            digit_byte(n % base),
        ));
    }
}

/// Decimal fixed-width digits are all decimal digits.
pub proof fn lemma_fixed_digits_are_digits(n: nat, width: nat)
    ensures
        all_dec_digits(fixed_digits(n, width, 10)),
    decreases width,
{
    if width > 0 {
        lemma_fixed_digits_are_digits(n / 10, (width - 1) as nat);
    }
}

/// Reading back fixed-width decimal digits gives the number when it fits.
pub proof fn lemma_fixed_digits_value(n: nat, width: nat)
    requires
        n < pow_nat(10, width),
    ensures
        dec_value(fixed_digits(n, width, 10)) == n,
    decreases width,
{
    if width > 0 {
        let p = pow_nat(10, (width - 1) as nat);
        assert(n / 10 < p) by (nonlinear_arith)
            requires
                n < 10 * p,
        ;
        lemma_fixed_digits_value(n / 10, (width - 1) as nat);
        let f = fixed_digits(n, width, 10);
        assert(f.drop_last() =~= fixed_digits(n / 10, (width - 1) as nat, 10));
    }
}

/// Every `u64` has at most twenty decimal digits.
pub proof fn lemma_u64_fits_twenty_digits(n: u64)
    ensures
        (n as nat) < pow_nat(10, 20),
{
    reveal_with_fuel(pow_nat, 21);
    assert(pow_nat(10, 20) == 100_000_000_000_000_000_000nat);
}

/// Every `u64` has at most sixteen hex digits.
pub proof fn lemma_u64_fits_sixteen_hex_digits(n: u64)
    ensures
        (n as nat) < pow_nat(16, 16),
{
    reveal_with_fuel(pow_nat, 17);
    assert(pow_nat(16, 16) == 0x1_0000_0000_0000_0000nat);
}

/// Fixed-width digits sort as the numbers do, while they fit.
pub proof fn lemma_fixed_digits_order(a: nat, b: nat, width: nat, base: nat)
    requires
        2 <= base <= 16,
        a < b < pow_nat(base, width),
    ensures
        bytes_lt(fixed_digits(a, width, base), fixed_digits(b, width, base)),
    decreases width,
{
    let p = pow_nat(base, (width - 1) as nat);
    assert(b / base < p) by (nonlinear_arith)
        requires
            b < base * p,
            base >= 2,
    ;
    assert(a / base <= b / base) by (nonlinear_arith)
        requires
            a < b,
            base >= 2,
    ;
    let fa = fixed_digits(a / base, (width - 1) as nat, base);
    let fb = fixed_digits(b / base, (width - 1) as nat, base);
    lemma_fixed_digits_len(a / base, (width - 1) as nat, base);
    lemma_fixed_digits_len(b / base, (width - 1) as nat, base);
    if a / base < b / base {
        lemma_fixed_digits_order(a / base, b / base, (width - 1) as nat, base);
        lemma_bytes_lt_extend(fa, fb, seq![digit_byte(a % base)], seq![digit_byte(b % base)]);
        assert(fa + seq![digit_byte(a % base)] =~= fixed_digits(a, width, base));
        assert(fb + seq![digit_byte(b % base)] =~= fixed_digits(b, width, base));
    } else {
        assert(a % base < b % base) by (nonlinear_arith)
            requires
                a < b,
                a / base == b / base,
                base >= 2,
        ;
        let x = fixed_digits(a, width, base);
        let y = fixed_digits(b, width, base);
        assert(forall|i: int| 0 <= i < width - 1 ==> x[i] == y[i]);
        lemma_bytes_lt_first_difference(x, y, width - 1);
    }
}

} // verus!
