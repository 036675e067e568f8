//! Fixed-point price math for concentrated liquidity.
//!
//! Square-root prices are Q64.64 unsigned fixed-point values. For a one-sided
//! deposit of token A into the range `[sqrt_price_lower, sqrt_price_upper]`,
//! the liquidity created is
//! `floor(amount * lower * upper / ((upper - lower) * 2^64))`,
//! and conversely removing `liquidity` releases
//! `floor(liquidity * (upper - lower) * 2^64 / (lower * upper))`
//! of token A. Both are computed exactly in 384-bit arithmetic; the round-trip
//! lemmas at the end bound the truncation error of composing the two.

use vstd::prelude::*;
use vstd::arithmetic::div_mod::{
    lemma_div_is_ordered, lemma_div_multiples_vanish, lemma_div_pos_is_pos,
    lemma_fundamental_div_mod, lemma_fundamental_div_mod_converse, lemma_mod_bound,
};
use crate::errors::ErrorCode;
use crate::wide::{U384, div_rem, mul_u128, mul_u64, val};

verus! {

/// Liquidity created by a one-sided deposit of `amount` units of token A
/// into the price range `[sqrt_lower, sqrt_upper]` (Q64.64 square-root
/// prices).
pub open spec fn liquidity_for_amount_a(amount: int, sqrt_lower: int, sqrt_upper: int) -> int
    recommends
        0 <= amount,
        0 <= sqrt_lower < sqrt_upper,
{
    (amount * sqrt_lower * sqrt_upper) / ((sqrt_upper - sqrt_lower) * 0x10000000000000000)
}

/// Token-A amount released by removing `liquidity` from the price range
/// `[sqrt_lower, sqrt_upper]`; this is the pool's own amount-from-liquidity
/// formula, the inverse direction of `liquidity_for_amount_a`.
pub open spec fn amount_a_for_liquidity(liquidity: int, sqrt_lower: int, sqrt_upper: int) -> int
    recommends
        0 <= liquidity,
        0 < sqrt_lower < sqrt_upper,
{
    (liquidity * (sqrt_upper - sqrt_lower) * 0x10000000000000000) / (sqrt_lower * sqrt_upper)
}

/// Computes `liquidity_for_amount_a` exactly: the liquidity delta that a
/// one-sided deposit of `amount` units of token A creates. Fails with
/// `InvalidPriceRange` when the range is empty or inverted, and with
/// `NumericDowncastError` when the result does not fit 128 bits.
pub fn liquidity_from_token_a(
    amount: u64,
    sqrt_price_lower: u128,
    sqrt_price_upper: u128,
) -> (r: Result<u128, ErrorCode>)
    ensures
        sqrt_price_lower >= sqrt_price_upper ==> r == Err::<u128, ErrorCode>(
            ErrorCode::InvalidPriceRange,
        ),
        sqrt_price_lower < sqrt_price_upper ==> {
            let liq = liquidity_for_amount_a(
                amount as int,
                sqrt_price_lower as int,
                sqrt_price_upper as int,
            );
            if liq <= u128::MAX {
                r == Ok::<u128, ErrorCode>(liq as u128)
            } else {
                r == Err::<u128, ErrorCode>(ErrorCode::NumericDowncastError)
            }
        },
{
    if sqrt_price_lower >= sqrt_price_upper {
        return Err(ErrorCode::InvalidPriceRange);
    }
    let price_product = mul_u128(sqrt_price_lower, sqrt_price_upper);
    let numerator = mul_u64(&price_product, amount);
    let diff = U384::from_u128(sqrt_price_upper - sqrt_price_lower);
    let denominator = diff.shl64();
    proof {
        assert(val(numerator) == amount as int * sqrt_price_lower as int * sqrt_price_upper as int)
            by (nonlinear_arith)
            requires
                val(numerator) == (sqrt_price_lower as int * sqrt_price_upper as int) * amount as int;
    }
    let (quotient, _remainder) = div_rem(&numerator, &denominator);
    match quotient.to_u128() {
        Some(liquidity) => Ok(liquidity),
        None => Err(ErrorCode::NumericDowncastError),
    }
}

/// Computes `amount_a_for_liquidity` exactly: the token-A amount released by
/// removing `liquidity` from the range. Fails with `InvalidPriceRange` when
/// the range is empty, inverted or starts at zero, and with
/// `NumericDowncastError` when the amount does not fit 64 bits.
pub fn token_a_from_liquidity(
    liquidity: u128,
    sqrt_price_lower: u128,
    sqrt_price_upper: u128,
) -> (r: Result<u64, ErrorCode>)
    ensures
        !(0 < sqrt_price_lower < sqrt_price_upper) ==> r == Err::<u64, ErrorCode>(
            ErrorCode::InvalidPriceRange,
        ),
        0 < sqrt_price_lower < sqrt_price_upper ==> {
            let amount = amount_a_for_liquidity(
                liquidity as int,
                sqrt_price_lower as int,
                sqrt_price_upper as int,
            );
            if amount <= u64::MAX {
                r == Ok::<u64, ErrorCode>(amount as u64)
            } else {
                r == Err::<u64, ErrorCode>(ErrorCode::NumericDowncastError)
            }
        },
{
    if sqrt_price_lower == 0 || sqrt_price_lower >= sqrt_price_upper {
        return Err(ErrorCode::InvalidPriceRange);
    }
    let scaled = mul_u128(liquidity, sqrt_price_upper - sqrt_price_lower);
    let numerator = scaled.shl64();
    let denominator = mul_u128(sqrt_price_lower, sqrt_price_upper);
    proof {
        assert(val(denominator) >= 1) by (nonlinear_arith)
            requires
                val(denominator) == sqrt_price_lower as int * sqrt_price_upper as int,
                sqrt_price_lower >= 1,
                sqrt_price_upper >= 1;
    }
    let (quotient, _remainder) = div_rem(&numerator, &denominator);
    match quotient.to_u128() {
        Some(amount) => {
            if amount <= u64::MAX as u128 {
                Ok(amount as u64)
            } else {
                Err(ErrorCode::NumericDowncastError)
            }
        },
        None => Err(ErrorCode::NumericDowncastError),
    }
}

/// The liquidity value is never negative for non-negative inputs.
pub proof fn lemma_liquidity_nonneg(amount: int, sqrt_lower: int, sqrt_upper: int)
    requires
        0 <= amount,
        0 <= sqrt_lower < sqrt_upper,
    ensures
        liquidity_for_amount_a(amount, sqrt_lower, sqrt_upper) >= 0,
{
    let n = amount * sqrt_lower * sqrt_upper;
    let unit_cost = (sqrt_upper - sqrt_lower) * 0x10000000000000000;
    assert(n >= 0 && unit_cost >= 1) by (nonlinear_arith)
        requires
            n == amount * sqrt_lower * sqrt_upper,
            unit_cost == (sqrt_upper - sqrt_lower) * 0x10000000000000000,
            amount >= 0,
            0 <= sqrt_lower < sqrt_upper;
    lemma_div_pos_is_pos(n, unit_cost);
}

/// The token amount is never negative for non-negative inputs.
pub proof fn lemma_amount_a_nonneg(liquidity: int, sqrt_lower: int, sqrt_upper: int)
    requires
        0 <= liquidity,
        0 < sqrt_lower < sqrt_upper,
    ensures
        amount_a_for_liquidity(liquidity, sqrt_lower, sqrt_upper) >= 0,
{
    let n = liquidity * (sqrt_upper - sqrt_lower) * 0x10000000000000000;
    let product = sqrt_lower * sqrt_upper;
    assert(n >= 0 && product >= 1) by (nonlinear_arith)
        requires
            n == liquidity * (sqrt_upper - sqrt_lower) * 0x10000000000000000,
            product == sqrt_lower * sqrt_upper,
            liquidity >= 0,
            0 < sqrt_lower < sqrt_upper;
    lemma_div_pos_is_pos(n, product);
}

/// The recovered amount never exceeds the deposited one: converting an
/// amount to liquidity and that liquidity back to an amount only truncates
/// downward.
pub proof fn lemma_round_trip_never_exceeds(amount: int, sqrt_lower: int, sqrt_upper: int)
    requires
        0 <= amount,
        0 < sqrt_lower < sqrt_upper,
    ensures
        amount_a_for_liquidity(
            liquidity_for_amount_a(amount, sqrt_lower, sqrt_upper),
            sqrt_lower,
            sqrt_upper,
        ) <= amount,
{
    let scale: int = 0x10000000000000000;
    let product = sqrt_lower * sqrt_upper;
    let unit_cost = (sqrt_upper - sqrt_lower) * scale;
    assert(product >= 1) by (nonlinear_arith)
        requires
            product == sqrt_lower * sqrt_upper,
            sqrt_lower >= 1,
            sqrt_upper >= 1;
    assert(unit_cost >= 1) by (nonlinear_arith)
        requires
            unit_cost == (sqrt_upper - sqrt_lower) * scale,
            sqrt_upper - sqrt_lower >= 1,
            scale >= 1;
    let n = amount * sqrt_lower * sqrt_upper;
    assert(n == amount * product) by (nonlinear_arith)
        requires
            n == amount * sqrt_lower * sqrt_upper,
            product == sqrt_lower * sqrt_upper;
    let liq = n / unit_cost;
    let back = liq * (sqrt_upper - sqrt_lower) * scale;
    assert(back == unit_cost * liq) by (nonlinear_arith)
        requires
            back == liq * (sqrt_upper - sqrt_lower) * scale,
            unit_cost == (sqrt_upper - sqrt_lower) * scale;
    lemma_fundamental_div_mod(n, unit_cost);
    lemma_mod_bound(n, unit_cost);
    assert(back == n - n % unit_cost);
    assert(back >= 0);
    lemma_div_is_ordered(back, n, product);
    assert(n / product == amount) by {
        lemma_div_multiples_vanish(amount, product);
        assert(amount * product == product * amount) by (nonlinear_arith);
    }
}

/// Round trip of the price math: when one unit of liquidity is worth at most
/// one unit of token A over the range (`(upper - lower) * 2^64 <= lower *
/// upper`), converting an amount to liquidity and back recovers the amount
/// within one unit of truncation error. Without that bound the shortfall can
/// exceed one unit, since truncating the liquidity value discards up to one
/// liquidity unit's worth of tokens.
pub proof fn lemma_liquidity_round_trip(amount: int, sqrt_lower: int, sqrt_upper: int)
    requires
        0 <= amount,
        0 < sqrt_lower < sqrt_upper,
        (sqrt_upper - sqrt_lower) * 0x10000000000000000 <= sqrt_lower * sqrt_upper,
    ensures
        amount_a_for_liquidity(
            liquidity_for_amount_a(amount, sqrt_lower, sqrt_upper),
            sqrt_lower,
            sqrt_upper,
        ) <= amount,
        amount_a_for_liquidity(
            liquidity_for_amount_a(amount, sqrt_lower, sqrt_upper),
            sqrt_lower,
            sqrt_upper,
        ) >= amount - 1,
{
    lemma_round_trip_never_exceeds(amount, sqrt_lower, sqrt_upper);
    let scale: int = 0x10000000000000000;
    let product = sqrt_lower * sqrt_upper;
    let unit_cost = (sqrt_upper - sqrt_lower) * scale;
    assert(product >= 1) by (nonlinear_arith)
        requires
            product == sqrt_lower * sqrt_upper,
            sqrt_lower >= 1,
            sqrt_upper >= 1;
    assert(unit_cost >= 1) by (nonlinear_arith)
        requires
            unit_cost == (sqrt_upper - sqrt_lower) * scale,
            sqrt_upper - sqrt_lower >= 1,
            scale >= 1;
    let n = amount * sqrt_lower * sqrt_upper;
    assert(n == amount * product) by (nonlinear_arith)
        requires
            n == amount * sqrt_lower * sqrt_upper,
            product == sqrt_lower * sqrt_upper;
    let liq = n / unit_cost;
    let back = liq * (sqrt_upper - sqrt_lower) * scale;
    assert(back == unit_cost * liq) by (nonlinear_arith)
        requires
            back == liq * (sqrt_upper - sqrt_lower) * scale,
            unit_cost == (sqrt_upper - sqrt_lower) * scale;
    lemma_fundamental_div_mod(n, unit_cost);
    lemma_mod_bound(n, unit_cost);
    let rem = n % unit_cost;
    assert(back == amount * product - rem);
    if rem == 0 {
        assert(back / product == amount) by {
            lemma_div_multiples_vanish(amount, product);
            assert(amount * product == product * amount) by (nonlinear_arith);
        }
    } else {
        // One full unit of the divisor absorbs the remainder: the quotient
        // drops by exactly one.
        assert(back == (amount - 1) * product + (product - rem)) by (nonlinear_arith)
            requires
                back == amount * product - rem;
        assert(0 <= product - rem < product);
        lemma_fundamental_div_mod_converse(back, product, amount - 1, product - rem);
    }
}

} // verus!
