//! Pricing formulas and the integer square root.

use vstd::prelude::*;
use vstd::arithmetic::div_mod::lemma_small_mod;
use crate::error::AmmError;
use crate::wide::{
    wide_add, wide_div, wide_from, wide_lt, wide_modulus, wide_mul, wide_to_u128,
};

verus! {

/// The trading fee of a pool for which no other has been set, in parts per
/// thousand of the amount paid in.
pub const DEFAULT_FEE_AMOUNT_PER_1000: u128 = 5;

/// The largest trading fee: the whole of the amount paid in.
pub const MAX_FEE_AMOUNT_PER_1000: u128 = 1000;

/// What counts of a thousand parts of input after a trading fee of
/// `fee_per_1000` parts.
pub open spec fn fee_multiplier(fee_per_1000: int) -> int {
    1000 - fee_per_1000
}

/// The numerator of the output formula: `multiplier * amount_in * reserve_out`.
pub open spec fn out_numerator(multiplier: int, amount_in: int, reserve_out: int) -> int {
    multiplier * amount_in * reserve_out
}

/// The denominator of the output formula: `1000 * reserve_in + multiplier * amount_in`.
pub open spec fn out_denominator(multiplier: int, amount_in: int, reserve_in: int) -> int {
    1000 * reserve_in + multiplier * amount_in
}

/// The output of a swap of `amount_in` against the reserves, where
/// `multiplier` parts per thousand of the input count:
/// `multiplier * amount_in * reserve_out / (1000 * reserve_in + multiplier * amount_in)`,
/// rounded down. It is `InsufficientLiquidity` where the denominator is
/// zero. With a multiplier of a thousand at most the quotient is at most
/// `reserve_out`: see [`lemma_quote_at_most_reserve`].
pub open spec fn quote_out(multiplier: int, amount_in: int, reserve_in: int, reserve_out: int)
    -> Result<u128, AmmError> {
    let numerator = out_numerator(multiplier, amount_in, reserve_out);
    let denominator = out_denominator(multiplier, amount_in, reserve_in);
    if denominator == 0 {
        Err(AmmError::InsufficientLiquidity)
    } else {
        Ok((numerator / denominator) as u128)
    }
}

/// The quotient of the output formula is at most the output reserve, and
/// less where both reserves are positive.
pub proof fn lemma_quote_at_most_reserve(
    multiplier: int,
    amount_in: int,
    reserve_in: int,
    reserve_out: int,
)
    requires
        0 <= multiplier,
        0 <= amount_in,
        0 <= reserve_in,
        0 <= reserve_out,
        out_denominator(multiplier, amount_in, reserve_in) != 0,
    ensures
        0 <= out_numerator(multiplier, amount_in, reserve_out) / out_denominator(
            multiplier,
            amount_in,
            reserve_in,
        ) <= reserve_out,
        reserve_in > 0 && reserve_out > 0 ==> out_numerator(multiplier, amount_in, reserve_out)
            / out_denominator(multiplier, amount_in, reserve_in) < reserve_out,
{
    let w = multiplier * amount_in;
    let n = out_numerator(multiplier, amount_in, reserve_out);
    let d = out_denominator(multiplier, amount_in, reserve_in);
    assert(0 <= w) by (nonlinear_arith)
        requires
            w == multiplier * amount_in,
            0 <= multiplier,
            0 <= amount_in,
    ;
    assert(0 <= n <= d * reserve_out && (reserve_in > 0 && reserve_out > 0 ==> n < d
        * reserve_out)) by (nonlinear_arith)
        requires
            n == w * reserve_out,
            d == 1000 * reserve_in + w,
            0 <= w,
            0 <= reserve_in,
            0 <= reserve_out,
    ;
    vstd::arithmetic::div_mod::lemma_div_pos_is_pos(n, d);
    vstd::arithmetic::div_mod::lemma_div_is_ordered(n, d * reserve_out, d);
    vstd::arithmetic::div_mod::lemma_div_multiples_vanish(reserve_out, d);
    if reserve_in > 0 && reserve_out > 0 {
        vstd::arithmetic::div_mod::lemma_fundamental_div_mod(n, d);
        vstd::arithmetic::div_mod::lemma_mod_bound(n, d);
        let q = n / d;
        if q >= reserve_out {
            assert(d * q >= d * reserve_out) by (nonlinear_arith)
                requires
                    q >= reserve_out,
                    0 < d,
            ;
        }
    }
}

/// The input that a swap needs to yield `amount_out`, where `multiplier`
/// parts per thousand of the input count:
/// `1000 * reserve_in * amount_out / (multiplier * (reserve_out - amount_out)) + 1`,
/// the quotient rounded down. It is `InsufficientOutputAmount` for an output
/// of zero, `InsufficientLiquidity` where a reserve is zero or the output is
/// not less than its reserve, and `Overflow` where the result needs more
/// than 128 bits.
pub open spec fn quote_in(multiplier: int, amount_out: int, reserve_in: int, reserve_out: int)
    -> Result<u128, AmmError> {
    let numerator = 1000 * reserve_in * amount_out;
    let denominator = multiplier * (reserve_out - amount_out);
    if amount_out == 0 {
        Err(AmmError::InsufficientOutputAmount)
    } else if reserve_in == 0 || reserve_out == 0 || amount_out >= reserve_out {
        Err(AmmError::InsufficientLiquidity)
    } else if numerator / denominator + 1 > u128::MAX {
        Err(AmmError::Overflow)
    } else {
        Ok((numerator / denominator + 1) as u128)
    }
}

/// The output of a swap at a trading fee of `fee_per_1000`: [`quote_out`]
/// with what the fee leaves of the input. `InvalidFee` for a fee of more
/// than the whole input.
pub open spec fn quote_out_at(fee_per_1000: int, amount_in: int, reserve_in: int, reserve_out: int)
    -> Result<u128, AmmError> {
    if fee_per_1000 > MAX_FEE_AMOUNT_PER_1000 {
        Err(AmmError::InvalidFee)
    } else {
        quote_out(fee_multiplier(fee_per_1000), amount_in, reserve_in, reserve_out)
    }
}

/// The input that a swap needs at a trading fee of `fee_per_1000`:
/// [`quote_in`] with what the fee leaves of the input. `InvalidFee` for a fee
/// of the whole input or more, at which no input buys anything.
pub open spec fn quote_in_at(fee_per_1000: int, amount_out: int, reserve_in: int, reserve_out: int)
    -> Result<u128, AmmError> {
    if fee_per_1000 >= MAX_FEE_AMOUNT_PER_1000 {
        Err(AmmError::InvalidFee)
    } else {
        quote_in(fee_multiplier(fee_per_1000), amount_out, reserve_in, reserve_out)
    }
}

/// Whether `r` is the square root of `x`, rounded down.
pub open spec fn is_sqrt_floor(x: int, r: int) -> bool {
    0 <= r && r * r <= x < (r + 1) * (r + 1)
}

/// The square root of `x`, rounded down.
pub open spec fn sqrt_floor(x: int) -> int {
    choose|r: int| is_sqrt_floor(x, r)
}

/// A number has at most one rounded-down square root.
pub proof fn lemma_sqrt_floor_unique(x: int, r1: int, r2: int)
    requires
        is_sqrt_floor(x, r1),
        is_sqrt_floor(x, r2),
    ensures
        r1 == r2,
{
    if r1 < r2 {
        assert((r1 + 1) * (r1 + 1) <= r2 * r2) by (nonlinear_arith)
            requires
                0 <= r1,
                r1 + 1 <= r2,
        ;
    } else if r2 < r1 {
        assert((r2 + 1) * (r2 + 1) <= r1 * r1) by (nonlinear_arith)
            requires
                0 <= r2,
                r2 + 1 <= r1,
        ;
    }
}

/// A number that squares to at most `x`, while its successor squares to more,
/// is the rounded-down square root of `x`.
pub proof fn lemma_sqrt_floor_is(x: int, r: int)
    requires
        is_sqrt_floor(x, r),
    ensures
        sqrt_floor(x) == r,
{
    lemma_sqrt_floor_unique(x, r, sqrt_floor(x));
}

/// `Roots::sqrt` of `num` on a `u128`, which `num` documents as the truncated
/// square root: the result `r` satisfies `r * r <= x < (r + 1) * (r + 1)`.
#[verifier::external_body]
fn roots_sqrt(x: u128) -> (r: u128)
    ensures
        r * r <= x < (r + 1) * (r + 1),
{
    num::integer::Roots::sqrt(&x)
}

/// The square root of `x`, rounded down.
pub fn sqrt(x: u128) -> (r: u128)
    ensures
        is_sqrt_floor(x as int, r as int),
        r == sqrt_floor(x as int),
{
    let r = roots_sqrt(x);
    proof {
        lemma_sqrt_floor_is(x as int, r as int);
    }
    r
}

/// A product of a number of up to a thousand and two 128-bit numbers fits
/// in 320 bits with room to spare, and so does the sum of two products of
/// such a number and one 128-bit number.
pub proof fn lemma_products_fit(m: u128, a: u128, b: u128)
    requires
        m <= 1000,
    ensures
        0 <= m * a <= 1000 * 0xffff_ffff_ffff_ffff_ffff_ffff_ffff_ffff,
        0 <= m * a * b < wide_modulus(),
        2000 * 0xffff_ffff_ffff_ffff_ffff_ffff_ffff_ffff < wide_modulus(),
{
    let max: int = 0xffff_ffff_ffff_ffff_ffff_ffff_ffff_ffff;
    let w: int = m * a;
    assert(0 <= w <= 1000 * max) by (nonlinear_arith)
        requires
            w == m * a,
            0 <= m <= 1000,
            0 <= a <= max,
    ;
    assert(0 <= w * b <= 1000 * max * max) by (nonlinear_arith)
        requires
            0 <= w <= 1000 * max,
            0 <= b <= max,
    ;
    assert(1000 * max * max < wide_modulus()) by (nonlinear_arith)
        requires
            max == 0xffff_ffff_ffff_ffff_ffff_ffff_ffff_ffff,
            wide_modulus()
                == 0x1_0000_0000_0000_0000_0000_0000_0000_0000_0000_0000_0000_0000_0000_0000_0000_0000_0000_0000_0000_0000nat,
    ;
}

/// The output of a swap with `multiplier` parts per thousand of the input
/// counted, computed in 320 bits.
pub(crate) fn compute_quote_out(multiplier: u128, amount_in: u128, reserve_in: u128, reserve_out: u128)
    -> (r: Result<u128, AmmError>)
    requires
        multiplier <= 1000,
    ensures
        r == quote_out(multiplier as int, amount_in as int, reserve_in as int, reserve_out as int),
{
    proof {
        lemma_products_fit(multiplier, amount_in, reserve_out);
        lemma_products_fit(1000, reserve_in, 1);
    }
    let amount_in_with_fee = wide_mul(wide_from(multiplier), wide_from(amount_in));
    proof {
        lemma_small_mod((multiplier * amount_in) as nat, wide_modulus());
    }
    let thousand_reserve_in = wide_mul(wide_from(1000), wide_from(reserve_in));
    proof {
        lemma_small_mod((1000 * reserve_in) as nat, wide_modulus());
    }
    let denominator = wide_add(thousand_reserve_in, amount_in_with_fee);
    proof {
        lemma_small_mod((1000 * reserve_in + multiplier * amount_in) as nat, wide_modulus());
    }
    if multiplier == 0 && reserve_in == 0 || amount_in == 0 && reserve_in == 0 {
        proof {
            assert(multiplier * amount_in == 0) by (nonlinear_arith)
                requires
                    multiplier == 0 || amount_in == 0,
            ;
        }
        return Err(AmmError::InsufficientLiquidity);
    }
    proof {
        assert(reserve_in == 0 ==> multiplier * amount_in > 0) by (nonlinear_arith)
            requires
                multiplier > 0 || reserve_in > 0,
                amount_in > 0 || reserve_in > 0,
        ;
    }
    let numerator = wide_mul(amount_in_with_fee, wide_from(reserve_out));
    proof {
        lemma_small_mod((multiplier * amount_in * reserve_out) as nat, wide_modulus());
        lemma_quote_at_most_reserve(
            multiplier as int,
            amount_in as int,
            reserve_in as int,
            reserve_out as int,
        );
    }
    match wide_to_u128(wide_div(numerator, denominator)) {
        Ok(v) => Ok(v),
        Err(_) => {
            assert(false);
            Err(AmmError::Overflow)
        },
    }
}

/// The output of a swap of `amount_in` against the reserves at a trading fee
/// of `fee_per_1000`.
pub fn get_amount_out_with_fee(amount_in: u128, reserve_in: u128, reserve_out: u128, fee_per_1000: u128)
    -> (r: Result<u128, AmmError>)
    ensures
        r == quote_out_at(
            fee_per_1000 as int,
            amount_in as int,
            reserve_in as int,
            reserve_out as int,
        ),
{
    if fee_per_1000 > MAX_FEE_AMOUNT_PER_1000 {
        return Err(AmmError::InvalidFee);
    }
    compute_quote_out(MAX_FEE_AMOUNT_PER_1000 - fee_per_1000, amount_in, reserve_in, reserve_out)
}

/// The output of a swap of `amount_in` against the reserves, at the default
/// trading fee.
pub fn get_amount_out(amount_in: u128, reserve_in: u128, reserve_out: u128) -> (r: Result<
    u128,
    AmmError,
>)
    ensures
        r == quote_out_at(
            DEFAULT_FEE_AMOUNT_PER_1000 as int,
            amount_in as int,
            reserve_in as int,
            reserve_out as int,
        ),
{
    get_amount_out_with_fee(amount_in, reserve_in, reserve_out, DEFAULT_FEE_AMOUNT_PER_1000)
}

/// The input that a swap needs to yield `amount_out` at a trading fee of
/// `fee_per_1000`, rounded up by one unit.
pub fn get_amount_in_with_fee(amount_out: u128, reserve_in: u128, reserve_out: u128, fee_per_1000: u128)
    -> (r: Result<u128, AmmError>)
    ensures
        r == quote_in_at(
            fee_per_1000 as int,
            amount_out as int,
            reserve_in as int,
            reserve_out as int,
        ),
{
    if fee_per_1000 >= MAX_FEE_AMOUNT_PER_1000 {
        return Err(AmmError::InvalidFee);
    }
    if amount_out == 0 {
        return Err(AmmError::InsufficientOutputAmount);
    }
    if reserve_in == 0 || reserve_out == 0 || amount_out >= reserve_out {
        return Err(AmmError::InsufficientLiquidity);
    }
    proof {
        lemma_products_fit(1000, reserve_in, amount_out);
    }
    let thousand_reserve_in = wide_mul(wide_from(1000), wide_from(reserve_in));
    proof {
        lemma_small_mod((1000 * reserve_in) as nat, wide_modulus());
    }
    let multiplier: u128 = MAX_FEE_AMOUNT_PER_1000 - fee_per_1000;
    let remaining: u128 = reserve_out - amount_out;
    let denominator = wide_mul(wide_from(multiplier), wide_from(remaining));
    proof {
        lemma_products_fit(multiplier, remaining, 1);
        assert(0 < multiplier * remaining) by (nonlinear_arith)
            requires
                0 < multiplier,
                0 < remaining,
        ;
        lemma_small_mod((multiplier * remaining) as nat, wide_modulus());
    }
    let numerator = wide_mul(thousand_reserve_in, wide_from(amount_out));
    proof {
        lemma_small_mod((1000 * reserve_in * amount_out) as nat, wide_modulus());
    }
    match wide_to_u128(wide_div(numerator, denominator)) {
        Ok(v) => match v.checked_add(1) {
            Some(w) => Ok(w),
            None => Err(AmmError::Overflow),
        },
        Err(_) => Err(AmmError::Overflow),
    }
}

/// The input that a swap needs to yield `amount_out` at the default trading
/// fee, rounded up by one unit.
pub fn get_amount_in(amount_out: u128, reserve_in: u128, reserve_out: u128) -> (r: Result<
    u128,
    AmmError,
>)
    ensures
        r == quote_in_at(
            DEFAULT_FEE_AMOUNT_PER_1000 as int,
            amount_out as int,
            reserve_in as int,
            reserve_out as int,
        ),
{
    get_amount_in_with_fee(amount_out, reserve_in, reserve_out, DEFAULT_FEE_AMOUNT_PER_1000)
}

/// The product of two 128-bit numbers fits in 320 bits.
pub proof fn lemma_product_fits(a: u128, b: u128)
    ensures
        0 <= a * b < wide_modulus(),
{
    assert(0 <= a * b <= 0xffff_ffff_ffff_ffff_ffff_ffff_ffff_ffff
        * 0xffff_ffff_ffff_ffff_ffff_ffff_ffff_ffff) by (nonlinear_arith)
        requires
            0 <= a <= 0xffff_ffff_ffff_ffff_ffff_ffff_ffff_ffff,
            0 <= b <= 0xffff_ffff_ffff_ffff_ffff_ffff_ffff_ffff,
    ;
}

/// Whether `a * b >= c * d`, the products taken in 320 bits.
pub fn product_at_least(a: u128, b: u128, c: u128, d: u128) -> (r: bool)
    ensures
        r == (a * b >= c * d),
{
    let left = wide_mul(wide_from(a), wide_from(b));
    let right = wide_mul(wide_from(c), wide_from(d));
    proof {
        lemma_product_fits(a, b);
        lemma_product_fits(c, d);
        lemma_small_mod((a * b) as nat, wide_modulus());
        lemma_small_mod((c * d) as nat, wide_modulus());
    }
    !wide_lt(left, right)
}

/// With a positive input reserve every swap is quoted, whatever the fee up
/// to the whole input, and the quote is at most the output reserve: a swap at
/// the pool's price cannot drain a reserve that holds anything.
pub proof fn law_quote_below_reserve(
    fee_per_1000: u128,
    amount_in: u128,
    reserve_in: u128,
    reserve_out: u128,
)
    requires
        fee_per_1000 <= MAX_FEE_AMOUNT_PER_1000,
        reserve_in > 0,
    ensures
        quote_out_at(fee_per_1000 as int, amount_in as int, reserve_in as int, reserve_out as int)
            is Ok,
        quote_out_at(
            fee_per_1000 as int,
            amount_in as int,
            reserve_in as int,
            reserve_out as int,
        )->Ok_0 == out_numerator(
            fee_multiplier(fee_per_1000 as int),
            amount_in as int,
            reserve_out as int,
        ) / out_denominator(
            fee_multiplier(fee_per_1000 as int),
            amount_in as int,
            reserve_in as int,
        ),
        quote_out_at(
            fee_per_1000 as int,
            amount_in as int,
            reserve_in as int,
            reserve_out as int,
        )->Ok_0 <= reserve_out,
        reserve_out > 0 ==> quote_out_at(
            fee_per_1000 as int,
            amount_in as int,
            reserve_in as int,
            reserve_out as int,
        )->Ok_0 < reserve_out,
{
    let m = fee_multiplier(fee_per_1000 as int);
    assert(0 <= m * amount_in) by (nonlinear_arith)
        requires
            0 <= m,
            0 <= amount_in,
    ;
    lemma_quote_at_most_reserve(m, amount_in as int, reserve_in as int, reserve_out as int);
}

/// A swap at the pool's price does not lower the product of the reserves:
/// with `amount_out` the output of the formula for `amount_in`, whatever the
/// trading fee,
/// `(reserve_in + amount_in) * (reserve_out - amount_out) >= reserve_in * reserve_out`.
pub proof fn law_quote_keeps_product(
    fee_per_1000: u128,
    amount_in: u128,
    reserve_in: u128,
    reserve_out: u128,
)
    requires
        quote_out_at(fee_per_1000 as int, amount_in as int, reserve_in as int, reserve_out as int)
            is Ok,
    ensures
        ({
            let amount_out = quote_out_at(
                fee_per_1000 as int,
                amount_in as int,
                reserve_in as int,
                reserve_out as int,
            )->Ok_0;
            &&& amount_out <= reserve_out
            &&& (reserve_in + amount_in) * (reserve_out - amount_out) >= reserve_in * reserve_out
        }),
{
    let m = fee_multiplier(fee_per_1000 as int);
    let numerator = out_numerator(m, amount_in as int, reserve_out as int);
    let denominator = out_denominator(m, amount_in as int, reserve_in as int);
    let amount_out = numerator / denominator;
    lemma_quote_at_most_reserve(m, amount_in as int, reserve_in as int, reserve_out as int);
    let w = m * amount_in;
    assert(0 <= w) by (nonlinear_arith)
        requires
            w == m * amount_in,
            0 <= m,
            0 <= amount_in,
    ;
    assert(0 <= numerator) by (nonlinear_arith)
        requires
            0 <= w,
            0 <= reserve_out,
            numerator == w * reserve_out,
    ;
    vstd::arithmetic::div_mod::lemma_fundamental_div_mod(numerator, denominator);
    vstd::arithmetic::div_mod::lemma_mod_bound(numerator, denominator);
    assert(denominator * amount_out <= numerator);
    assert(amount_out * (reserve_in + amount_in) <= amount_in * reserve_out) by (nonlinear_arith)
        requires
            denominator * amount_out <= numerator,
            numerator == w * reserve_out,
            denominator == 1000 * reserve_in + w,
            w == m * amount_in,
            0 < denominator,
            0 <= m <= 1000,
            0 <= amount_in,
            0 <= reserve_in,
            0 <= reserve_out,
            0 <= amount_out <= reserve_out,
    ;
    assert((reserve_in + amount_in) * (reserve_out - amount_out) >= reserve_in * reserve_out)
        by (nonlinear_arith)
        requires
            amount_out * (reserve_in + amount_in) <= amount_in * reserve_out,
    ;
}

/// The input formula rounds up far enough: at any trading fee, the input
/// that it gives for `amount_out` is quoted an output, and buys at least
/// `amount_out` by the output formula.
pub proof fn law_quote_in_suffices(
    fee_per_1000: u128,
    amount_out: u128,
    reserve_in: u128,
    reserve_out: u128,
)
    requires
        quote_in_at(
            fee_per_1000 as int,
            amount_out as int,
            reserve_in as int,
            reserve_out as int,
        ) is Ok,
    ensures
        ({
            let amount_in = quote_in_at(
                fee_per_1000 as int,
                amount_out as int,
                reserve_in as int,
                reserve_out as int,
            )->Ok_0;
            let bought = quote_out_at(
                fee_per_1000 as int,
                amount_in as int,
                reserve_in as int,
                reserve_out as int,
            );
            bought is Ok && bought->Ok_0 >= amount_out
        }),
{
    let m = fee_multiplier(fee_per_1000 as int);
    let n = 1000 * reserve_in * amount_out;
    let d = m * (reserve_out - amount_out);
    let q = n / d;
    let amount_in = q + 1;
    assert(0 <= n) by (nonlinear_arith)
        requires
            0 <= reserve_in,
            0 <= amount_out,
            n == 1000 * reserve_in * amount_out,
    ;
    assert(0 < d) by (nonlinear_arith)
        requires
            0 < m,
            0 < reserve_out - amount_out,
            d == m * (reserve_out - amount_out),
    ;
    vstd::arithmetic::div_mod::lemma_fundamental_div_mod(n, d);
    vstd::arithmetic::div_mod::lemma_mod_bound(n, d);
    vstd::arithmetic::div_mod::lemma_div_pos_is_pos(n, d);
    assert(n < d * amount_in) by (nonlinear_arith)
        requires
            n == d * q + n % d,
            n % d < d,
            amount_in == q + 1,
    ;
    let numerator = out_numerator(m, amount_in, reserve_out as int);
    let denominator = out_denominator(m, amount_in, reserve_in as int);
    assert(0 < denominator && amount_out * denominator <= numerator) by (nonlinear_arith)
        requires
            n < d * amount_in,
            n == 1000 * reserve_in * amount_out,
            d == m * (reserve_out - amount_out),
            numerator == m * amount_in * reserve_out,
            denominator == 1000 * reserve_in + m * amount_in,
            0 < m,
            0 < amount_in,
            0 <= reserve_in,
    ;
    lemma_quote_at_most_reserve(m, amount_in, reserve_in as int, reserve_out as int);
    vstd::arithmetic::div_mod::lemma_div_is_ordered(
        amount_out * denominator,
        numerator,
        denominator,
    );
    vstd::arithmetic::div_mod::lemma_div_multiples_vanish(amount_out as int, denominator);
    assert(amount_out * denominator == denominator * amount_out) by (nonlinear_arith);
}

/// The input formula does not round up further than by one unit: at any
/// trading fee, every input below the one that it gives for `amount_out`
/// buys at most `amount_out`.
pub proof fn law_quote_in_is_tight(
    fee_per_1000: u128,
    amount_out: u128,
    reserve_in: u128,
    reserve_out: u128,
    less: u128,
)
    requires
        quote_in_at(
            fee_per_1000 as int,
            amount_out as int,
            reserve_in as int,
            reserve_out as int,
        ) is Ok,
        less < quote_in_at(
            fee_per_1000 as int,
            amount_out as int,
            reserve_in as int,
            reserve_out as int,
        )->Ok_0,
    ensures
        quote_in_at(
            fee_per_1000 as int,
            amount_out as int,
            reserve_in as int,
            reserve_out as int,
        )->Ok_0 >= 1,
        ({
            let bought = quote_out_at(
                fee_per_1000 as int,
                less as int,
                reserve_in as int,
                reserve_out as int,
            );
            bought is Ok && bought->Ok_0 <= amount_out
        }),
{
    let m = fee_multiplier(fee_per_1000 as int);
    let n = 1000 * reserve_in * amount_out;
    let d = m * (reserve_out - amount_out);
    let q = n / d;
    assert(0 <= n) by (nonlinear_arith)
        requires
            0 <= reserve_in,
            0 <= amount_out,
            n == 1000 * reserve_in * amount_out,
    ;
    assert(0 < d) by (nonlinear_arith)
        requires
            0 < m,
            0 < reserve_out - amount_out,
            d == m * (reserve_out - amount_out),
    ;
    vstd::arithmetic::div_mod::lemma_fundamental_div_mod(n, d);
    vstd::arithmetic::div_mod::lemma_mod_bound(n, d);
    vstd::arithmetic::div_mod::lemma_div_pos_is_pos(n, d);
    assert(d * less <= n) by (nonlinear_arith)
        requires
            n == d * q + n % d,
            0 <= n % d,
            0 <= less <= q,
            0 < d,
    ;
    let numerator = out_numerator(m, less as int, reserve_out as int);
    let denominator = out_denominator(m, less as int, reserve_in as int);
    assert(0 < denominator && 0 <= numerator <= amount_out * denominator) by (nonlinear_arith)
        requires
            d * less <= n,
            n == 1000 * reserve_in * amount_out,
            d == m * (reserve_out - amount_out),
            numerator == m * less * reserve_out,
            denominator == 1000 * reserve_in + m * less,
            0 < m,
            0 <= less,
            0 < reserve_in,
            0 <= reserve_out,
    ;
    lemma_quote_at_most_reserve(m, less as int, reserve_in as int, reserve_out as int);
    vstd::arithmetic::div_mod::lemma_div_is_ordered(
        numerator,
        amount_out * denominator,
        denominator,
    );
    vstd::arithmetic::div_mod::lemma_div_multiples_vanish(amount_out as int, denominator);
    assert(amount_out * denominator == denominator * amount_out) by (nonlinear_arith);
}

/// A higher trading fee never buys more: the output at a fee is at most the
/// output at any lower fee, and so at most the output without fee.
pub proof fn law_fee_lowers_output(
    lower_fee: u128,
    higher_fee: u128,
    amount_in: u128,
    reserve_in: u128,
    reserve_out: u128,
)
    requires
        lower_fee <= higher_fee,
        quote_out_at(lower_fee as int, amount_in as int, reserve_in as int, reserve_out as int)
            is Ok,
        quote_out_at(higher_fee as int, amount_in as int, reserve_in as int, reserve_out as int)
            is Ok,
    ensures
        quote_out_at(
            higher_fee as int,
            amount_in as int,
            reserve_in as int,
            reserve_out as int,
        )->Ok_0 <= quote_out_at(
            lower_fee as int,
            amount_in as int,
            reserve_in as int,
            reserve_out as int,
        )->Ok_0,
{
    let m1 = fee_multiplier(higher_fee as int);
    let m2 = fee_multiplier(lower_fee as int);
    let n1 = out_numerator(m1, amount_in as int, reserve_out as int);
    let d1 = out_denominator(m1, amount_in as int, reserve_in as int);
    let n2 = out_numerator(m2, amount_in as int, reserve_out as int);
    let d2 = out_denominator(m2, amount_in as int, reserve_in as int);
    let q1 = n1 / d1;
    lemma_quote_at_most_reserve(m1, amount_in as int, reserve_in as int, reserve_out as int);
    lemma_quote_at_most_reserve(m2, amount_in as int, reserve_in as int, reserve_out as int);
    assert(0 <= n1 && 0 <= n2 && n1 * d2 <= n2 * d1 && 0 <= d1 && 0 <= d2) by (nonlinear_arith)
        requires
            0 <= m1 <= m2,
            0 <= amount_in,
            0 <= reserve_in,
            0 <= reserve_out,
            n1 == m1 * amount_in * reserve_out,
            n2 == m2 * amount_in * reserve_out,
            d1 == 1000 * reserve_in + m1 * amount_in,
            d2 == 1000 * reserve_in + m2 * amount_in,
    ;
    vstd::arithmetic::div_mod::lemma_fundamental_div_mod(n1, d1);
    vstd::arithmetic::div_mod::lemma_mod_bound(n1, d1);
    assert(q1 * d2 <= n2) by (nonlinear_arith)
        requires
            d1 * q1 <= n1,
            n1 * d2 <= n2 * d1,
            0 < d1,
            0 < d2,
            0 <= q1,
            0 <= n1,
    ;
    vstd::arithmetic::div_mod::lemma_div_is_ordered(q1 * d2, n2, d2);
    vstd::arithmetic::div_mod::lemma_div_multiples_vanish(q1, d2);
    assert(q1 * d2 == d2 * q1) by (nonlinear_arith);
}

} // verus!
