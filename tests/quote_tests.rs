use dex_ledger::error::DexError;
use dex_ledger::quote::{div_round, get_amount_in, get_amount_out};

#[test]
fn div_round_exact_is_not_rounded() {
    assert_eq!(div_round(10, 5), (2, false));
    assert_eq!(div_round(0, 7), (0, false));
}

#[test]
fn div_round_rounds_up_on_remainder() {
    assert_eq!(div_round(11, 5), (3, true));
    assert_eq!(div_round(u128::MAX, 2), (u128::MAX / 2 + 1, true));
}

#[test]
fn amount_out_applies_fee() {
    // 100 * 995 * 500 / (1000 * 1000 + 100 * 995) = 49_750_000 / 1_099_500
    assert_eq!(get_amount_out(100, 1000, 500), Ok(45));
}

#[test]
fn amount_out_errors() {
    assert_eq!(get_amount_out(0, 1000, 500), Err(DexError::InsufficientInputAmount));
    assert_eq!(get_amount_out(5, 0, 500), Err(DexError::InsufficientLiquidity));
    assert_eq!(get_amount_out(5, 1000, 0), Err(DexError::InsufficientLiquidity));
    assert_eq!(get_amount_out(u64::MAX, 1, u64::MAX), Err(DexError::Overflow));
}

#[test]
fn amount_in_rounds_up() {
    // 1000 * 50 * 1000 / (450 * 995) = 111.67..., rounded up
    assert_eq!(get_amount_in(50, 1000, 500), Ok(112));
    // 1000 * 1 * 1000 / (200 * 995) = 5.02..., rounded up
    assert_eq!(get_amount_in(1, 1000, 201), Ok(6));
}

#[test]
fn amount_in_errors() {
    assert_eq!(get_amount_in(0, 1000, 500), Err(DexError::InsufficientOutputAmount));
    assert_eq!(get_amount_in(5, 0, 500), Err(DexError::InsufficientLiquidity));
    assert_eq!(get_amount_in(5, 1000, 0), Err(DexError::InsufficientLiquidity));
    assert_eq!(get_amount_in(500, 1000, 500), Err(DexError::InsufficientLiquidity));
    assert_eq!(get_amount_in(u64::MAX - 1, u64::MAX, u64::MAX), Err(DexError::Overflow));
    assert_eq!(get_amount_in(1 << 32, u64::MAX, (1 << 32) + 1), Err(DexError::Overflow));
}

#[test]
fn swap_raises_reserve_product() {
    let (rq, rt, a) = (1000u128, 500u128, 100u64);
    let out = get_amount_out(a, rq as u64, rt as u64).unwrap() as u128;
    assert!((rq + a as u128) * (rt - out) > rq * rt);
    let (rq, rt, a) = (7u128, 3u128, 1u64);
    let out = get_amount_out(a, rq as u64, rt as u64).unwrap() as u128;
    assert_eq!(out, 0);
    assert!((rq + a as u128) * (rt - out) > rq * rt);
}

#[test]
fn buy_raises_reserve_product() {
    let (rq, rt, o) = (1000u128, 500u128, 50u64);
    let cost = get_amount_in(o, rq as u64, rt as u64).unwrap() as u128;
    assert_eq!(cost, 112);
    assert!((rq + cost) * (rt - o as u128) > rq * rt);
}
