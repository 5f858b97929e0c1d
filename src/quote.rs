//! Pricing: pure functions from explicit reserves to trade amounts, with a
//! fixed fee of 5 in 1000 on the input side.
use vstd::prelude::*;

use crate::error::DexError;
use crate::types::TokenBalance;

verus! {

/// The input share that reaches the pool, per mille of the amount paid.
pub const FEE_FACTOR: u128 = 995;

/// The denominator of `FEE_FACTOR`.
pub const FEE_BASE: u128 = 1000;

/// Division rounded up.
pub open spec fn ceil_div(a: int, b: int) -> int {
    if a % b == 0 {
        a / b
    } else {
        a / b + 1
    }
}

/// Tokens bought with `a` units of input against reserves `rin` and `rout`.
pub open spec fn amount_out_of(a: int, rin: int, rout: int) -> int {
    (a * 995 * rout) / (rin * 1000 + a * 995)
}

/// Input needed to buy `o` units against reserves `rin` and `rout`.
pub open spec fn amount_in_of(o: int, rin: int, rout: int) -> int {
    ceil_div(rin * o * 1000, (rout - o) * 995)
}

/// The outcome of pricing a sale of `a` units; products are formed in 128
/// bits, and one that does not fit is an overflow.
pub open spec fn quote_out(a: u64, rin: u64, rout: u64) -> Result<u64, DexError> {
    if a == 0 {
        Err(DexError::InsufficientInputAmount)
    } else if rin == 0 || rout == 0 {
        Err(DexError::InsufficientLiquidity)
    } else if a * 995 * rout > u128::MAX {
        Err(DexError::Overflow)
    } else {
        Ok(amount_out_of(a as int, rin as int, rout as int) as u64)
    }
}

/// The outcome of pricing a purchase of `o` units; the output must stay
/// below the reserve it comes from, and the price must fit a balance.
pub open spec fn quote_in(o: u64, rin: u64, rout: u64) -> Result<u64, DexError> {
    if o == 0 {
        Err(DexError::InsufficientOutputAmount)
    } else if rin == 0 || rout == 0 || o >= rout {
        Err(DexError::InsufficientLiquidity)
    } else if rin * o * 1000 > u128::MAX || amount_in_of(o as int, rin as int, rout as int)
        > u64::MAX {
        Err(DexError::Overflow)
    } else {
        Ok(amount_in_of(o as int, rin as int, rout as int) as u64)
    }
}

/// `a / b` rounded up, and whether it was rounded (the division left a
/// remainder).
pub fn div_round(a: u128, b: u128) -> (r: (u128, bool))
    requires
        b > 0,
    ensures
        r.0 == ceil_div(a as int, b as int),
        r.1 == (a % b != 0),
{
    let q = a / b;
    if a % b > 0 {
        assert(b > 1);
        assert(q < u128::MAX) by (nonlinear_arith)
            requires
                q == a / b,
                b > 1,
        ;
        (q + 1, true)
    } else {
        (q, false)
    }
}

proof fn lemma_out_below_reserve(a: int, rin: int, rout: int)
    requires
        a > 0,
        rin >= 0,
        rout > 0,
    ensures
        0 <= amount_out_of(a, rin, rout) <= rout,
        rin > 0 ==> amount_out_of(a, rin, rout) < rout,
{
    let d = rin * 1000 + a * 995;
    let n = a * 995 * rout;
    assert(d >= a * 995) by (nonlinear_arith)
        requires
            rin >= 0,
            d == rin * 1000 + a * 995,
    ;
    assert(a * 995 > 0) by (nonlinear_arith)
        requires
            a > 0,
    ;
    assert(n >= 0) by (nonlinear_arith)
        requires
            a > 0,
            rout > 0,
            n == a * 995 * rout,
    ;
    assert(n / d <= rout) by (nonlinear_arith)
        requires
            n == a * 995 * rout,
            d >= a * 995,
            a * 995 > 0,
            rout > 0,
    ;
    assert(n / d >= 0) by (nonlinear_arith)
        requires
            n >= 0,
            d > 0,
    ;
    if rin > 0 {
        assert(n / d < rout) by (nonlinear_arith)
            requires
                n == a * 995 * rout,
                d == rin * 1000 + a * 995,
                rin > 0,
                a * 995 > 0,
                rout > 0,
        ;
    }
}

/// Tokens bought with `amount_in` units of input against `reserve_in` and
/// `reserve_out`, rounded down: `amount_in * 995 * reserve_out /
/// (reserve_in * 1000 + amount_in * 995)`.
pub fn get_amount_out(amount_in: TokenBalance, reserve_in: TokenBalance, reserve_out: TokenBalance) -> (r:
    Result<TokenBalance, DexError>)
    ensures
        r == quote_out(amount_in, reserve_in, reserve_out),
        r matches Ok(v) ==> v < reserve_out,
{
    if amount_in == 0 {
        return Err(DexError::InsufficientInputAmount);
    }
    if reserve_in == 0 || reserve_out == 0 {
        return Err(DexError::InsufficientLiquidity);
    }
    let with_fee: u128 = amount_in as u128 * FEE_FACTOR;
    let numerator = match with_fee.checked_mul(reserve_out as u128) {
        Some(v) => v,
        None => {
            return Err(DexError::Overflow);
        },
    };
    let denominator: u128 = reserve_in as u128 * FEE_BASE + with_fee;
    proof {
        lemma_out_below_reserve(amount_in as int, reserve_in as int, reserve_out as int);
    }
    let out = numerator / denominator;
    Ok(out as u64)
}

/// Input needed to buy `amount_out` units against `reserve_in` and
/// `reserve_out`: `reserve_in * amount_out * 1000 / ((reserve_out -
/// amount_out) * 995)`, rounded up so that rounding favours the pool.
pub fn get_amount_in(amount_out: TokenBalance, reserve_in: TokenBalance, reserve_out: TokenBalance) -> (r:
    Result<TokenBalance, DexError>)
    ensures
        r == quote_in(amount_out, reserve_in, reserve_out),
{
    if amount_out == 0 {
        return Err(DexError::InsufficientOutputAmount);
    }
    if reserve_in == 0 || reserve_out == 0 || amount_out >= reserve_out {
        return Err(DexError::InsufficientLiquidity);
    }
    assert((reserve_in as u128) * (amount_out as u128) <= u128::MAX) by (nonlinear_arith)
        requires
            reserve_in <= u64::MAX,
            amount_out <= u64::MAX,
    ;
    let base: u128 = reserve_in as u128 * amount_out as u128;
    let numerator = match base.checked_mul(FEE_BASE) {
        Some(v) => v,
        None => {
            return Err(DexError::Overflow);
        },
    };
    let denominator: u128 = (reserve_out - amount_out) as u128 * FEE_FACTOR;
    let (amount_in, _) = div_round(numerator, denominator);
    if amount_in > u64::MAX as u128 {
        return Err(DexError::Overflow);
    }
    Ok(amount_in as u64)
}

/// A trade of quote for tokens at the quoted price raises the product of a
/// funded pool's reserves: after `amount_out_of(amount_in, r_q, r_t)` tokens
/// leave for `amount_in` quote, `(r_q + amount_in) * (r_t - out) > r_q * r_t`.
/// The output never exceeds the token reserve.
pub proof fn lemma_swap_invariant(amount_in: u64, r_q: u64, r_t: u64)
    requires
        amount_in > 0,
        r_q > 0,
        r_t > 0,
    ensures
        amount_out_of(amount_in as int, r_q as int, r_t as int) < r_t,
        (r_q + amount_in) * (r_t - amount_out_of(amount_in as int, r_q as int, r_t as int)) > r_q
            * r_t,
{
    let a = amount_in as int;
    let rq = r_q as int;
    let rt = r_t as int;
    lemma_out_below_reserve(a, rq, rt);
    let d = rq * 1000 + a * 995;
    let n = a * 995 * rt;
    let out = n / d;
    assert(d > 0) by (nonlinear_arith)
        requires
            d == rq * 1000 + a * 995,
            rq > 0,
            a > 0,
    ;
    assert(out * d <= n) by (nonlinear_arith)
        requires
            out == n / d,
            d > 0,
    ;
    assert(out >= 0);
    if out == 0 {
        assert((rq + a) * rt > rq * rt) by (nonlinear_arith)
            requires
                a > 0,
                rt > 0,
        ;
    } else {
        assert(995 * out * (rq + a) < 995 * a * rt) by (nonlinear_arith)
            requires
                out * d <= n,
                d == rq * 1000 + a * 995,
                n == a * 995 * rt,
                out > 0,
                rq > 0,
        ;
        assert((rq + a) * (rt - out) > rq * rt) by (nonlinear_arith)
            requires
                995 * out * (rq + a) < 995 * a * rt,
        ;
    }
}

/// Buying an exact amount at the quoted price also raises the product of a
/// funded pool's reserves: after `o` tokens leave for
/// `amount_in_of(o, r_q, r_t)` quote, `(r_q + in) * (r_t - o) > r_q * r_t`.
pub proof fn lemma_buy_invariant(o: u64, r_q: u64, r_t: u64)
    requires
        o > 0,
        r_q > 0,
        r_t > o,
    ensures
        (r_q + amount_in_of(o as int, r_q as int, r_t as int)) * (r_t - o) > r_q * r_t,
{
    let rq = r_q as int;
    let rt = r_t as int;
    let oi = o as int;
    let n = rq * oi * 1000;
    let d = (rt - oi) * 995;
    let a = amount_in_of(oi, rq, rt);
    assert(d > 0) by (nonlinear_arith)
        requires
            d == (rt - oi) * 995,
            rt > oi,
    ;
    assert(a * d >= n) by (nonlinear_arith)
        requires
            a == (if n % d == 0 {
                n / d
            } else {
                n / d + 1
            }),
            d > 0,
    ;
    assert(a * (rt - oi) > rq * oi) by (nonlinear_arith)
        requires
            a * d >= n,
            d == (rt - oi) * 995,
            n == rq * oi * 1000,
            rq > 0,
            oi > 0,
    ;
    assert((rq + a) * (rt - oi) > rq * rt) by (nonlinear_arith)
        requires
            a * (rt - oi) > rq * oi,
    ;
}

} // verus!
