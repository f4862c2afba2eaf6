//! Integer arithmetic shared by the store, the sampler and the aggregator:
//! division rounded to the nearest integer, halves rounded up, the rule
//! every stored gauge and rate follows.

use vstd::prelude::*;

verus! {

/// `num / den` rounded to the nearest integer, halves rounded up.
/// Meaningful for `num >= 0` and `den > 0`.
pub open spec fn round_div(num: int, den: int) -> int {
    (2 * num + den) / (2 * den)
}

/// Executable form of [`round_div`] on machine integers; the wide
/// intermediate cannot overflow.
pub fn round_div_u64(num: u64, den: u64) -> (r: u64)
    requires
        den > 0,
    ensures
        r == round_div(num as int, den as int),
{
    let wide: u128 = (2 * (num as u128) + (den as u128)) / (2 * (den as u128));
    proof {
        lemma_round_div_le_num(num as int, den as int);
    }
    wide as u64
}

/// Rounded division never exceeds the numerator (for `den >= 1`), so the
/// result of [`round_div_u64`] fits back into `u64`.
pub proof fn lemma_round_div_le_num(num: int, den: int)
    requires
        num >= 0,
        den >= 1,
    ensures
        0 <= round_div(num, den) <= num,
{
    assert(0 <= (2 * num + den) / (2 * den) <= num) by (nonlinear_arith)
        requires
            num >= 0,
            den >= 1,
    ;
}

/// Rounded division, written without doubling the numerator: the quotient,
/// plus one when the remainder is at least half the divisor.
pub proof fn lemma_round_div_split(num: int, den: int)
    requires
        num >= 0,
        den >= 1,
    ensures
        round_div(num, den) == num / den + if 2 * (num % den) >= den {
            1int
        } else {
            0int
        },
{
    let q = num / den;
    let r = num % den;
    vstd::arithmetic::div_mod::lemma_fundamental_div_mod(num, den);
    vstd::arithmetic::div_mod::lemma_mod_pos_bound(num, den);
    if 2 * r >= den {
        assert(2 * num + den == (q + 1) * (2 * den) + (2 * r - den)) by (nonlinear_arith)
            requires
                num == den * q + r,
        ;
        vstd::arithmetic::div_mod::lemma_fundamental_div_mod_converse(
            2 * num + den,
            2 * den,
            q + 1,
            2 * r - den,
        );
    } else {
        assert(2 * num + den == q * (2 * den) + (2 * r + den)) by (nonlinear_arith)
            requires
                num == den * q + r,
        ;
        vstd::arithmetic::div_mod::lemma_fundamental_div_mod_converse(
            2 * num + den,
            2 * den,
            q,
            2 * r + den,
        );
    }
}

/// The rounded mean of `sum` over `n` values, each of which fits in `u64`.
pub fn round_mean_u64(sum: u128, n: u64) -> (r: u64)
    requires
        n >= 1,
        sum <= (n as int) * 0xffff_ffff_ffff_ffff,
    ensures
        r == round_div(sum as int, n as int),
{
    let wn: u128 = n as u128;
    let q: u128 = sum / wn;
    let rem: u128 = sum % wn;
    proof {
        lemma_round_div_split(sum as int, n as int);
        lemma_round_div_between(sum as int, n as int, 0, 0xffff_ffff_ffff_ffff);
    }
    if 2 * rem >= wn {
        (q + 1) as u64
    } else {
        q as u64
    }
}

/// The rounded mean of a quantity lies between any lower and upper bound
/// that hold for the whole sum.
pub proof fn lemma_round_div_between(sum: int, n: int, lo: int, hi: int)
    requires
        n >= 1,
        0 <= lo,
        n * lo <= sum,
        sum <= n * hi,
    ensures
        lo <= round_div(sum, n) <= hi,
{
    assert(lo <= (2 * sum + n) / (2 * n) <= hi) by (nonlinear_arith)
        requires
            n >= 1,
            0 <= lo,
            n * lo <= sum,
            sum <= n * hi,
    ;
}

} // verus!
