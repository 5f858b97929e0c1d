use dex_ledger::error::DexError;
use dex_ledger::exchange::{Module as Dex, VAULT_PREFIX};
use dex_ledger::ledger::{LedgerError, Module as Ledger};
use dex_ledger::pools::PoolState;
use dex_ledger::types::{AccountId, ExchangeId, TokenId};

const A: AccountId = 1;
const B: AccountId = 2;

struct Market {
    dex: Dex,
    t: TokenId,
    qt: TokenId,
    e: ExchangeId,
    vault: AccountId,
}

/// A holds `tokens_a` of the pooled token and `quote_a` of the quote
/// currency; B holds `tokens_b` and `quote_b`.
fn market(tokens_a: u64, quote_a: u64, tokens_b: u64, quote_b: u64) -> Market {
    let mut l = Ledger::new();
    let t = l.create_token(&A, false, &vec![]).unwrap();
    l.mint(&A, &t, tokens_a).unwrap();
    l.mint(&B, &t, tokens_b).unwrap();
    let mut dex = Dex::new(l);
    let c = dex.create_currency(&A, &vec![b'q']).unwrap();
    let qt = dex.get_currency_token(&c).unwrap();
    dex.mint_currency(c, quote_a, &A).unwrap();
    dex.mint_currency(c, quote_b, &B).unwrap();
    let e = dex.create_exchange(&A, c).unwrap();
    let vault = dex.exchange(e).unwrap().vault;
    Market { dex, t, qt, e, vault }
}

fn bal(m: &Market, who: AccountId, id: TokenId) -> u64 {
    m.dex.ledger().balance_of(&who, &id)
}

#[test]
fn vault_accounts_are_derived_from_the_exchange_id() {
    assert_eq!(Dex::account_id(0), VAULT_PREFIX << 64);
    assert_eq!(Dex::account_id(5), (VAULT_PREFIX << 64) | 5);
    assert_ne!(Dex::account_id(1), Dex::account_id(2));
}

#[test]
fn registries_hand_out_sequential_ids() {
    let mut dex = Dex::new(Ledger::new());
    assert_eq!(dex.create_currency(&A, &vec![]), Ok(0));
    assert_eq!(dex.create_currency(&B, &vec![]), Ok(1));
    assert_eq!(dex.get_currency_token(&1), Ok(1));
    assert_eq!(dex.get_currency_token(&2), Err(DexError::InvalidCurrencyId));
    assert_eq!(dex.create_exchange(&A, 1), Ok(0));
    assert_eq!(dex.create_exchange(&B, 0), Ok(1));
    let ex = dex.exchange(1).unwrap();
    assert_eq!(ex.creator, B);
    assert_eq!(ex.currency, 0);
    assert_eq!(ex.vault, Dex::account_id(1));
    assert!(dex.exchange(2).is_none());
}

#[test]
fn currency_transfer_moves_the_quote_token() {
    let mut m = market(0, 100, 0, 0);
    assert_eq!(m.dex.do_transfer_from(&A, &B, &0, 30), Ok(()));
    assert_eq!(bal(&m, A, m.qt), 70);
    assert_eq!(bal(&m, B, m.qt), 30);
    assert_eq!(m.dex.do_transfer_from(&A, &B, &9, 30), Err(DexError::InvalidCurrencyId));
    assert_eq!(
        m.dex.do_transfer_from(&A, &B, &0, 71),
        Err(DexError::Ledger(LedgerError::InsufficientBalance))
    );
    assert_eq!(m.dex.mint_currency(3, 1, &A), Err(DexError::InvalidCurrencyId));
}

#[test]
fn bootstrap_then_buy_tokens() {
    let mut m = market(500, 10_000, 0, 300);
    let r = m.dex.add_liquidity(&A, m.e, &A, vec![m.t], vec![500], vec![1000]);
    assert_eq!(r, Ok(vec![1000]));
    assert_eq!(m.dex.pool(m.t), PoolState { quote_reserve: 1000, liquidity_supply: 1000 });
    assert_eq!(bal(&m, A, m.t), 1000);
    assert_eq!(bal(&m, m.vault, m.t), 500);
    assert_eq!(bal(&m, A, m.qt), 9000);
    assert_eq!(bal(&m, m.vault, m.qt), 1000);

    let r = m.dex.currency_to_token(&B, m.e, vec![m.t], vec![50], 200, &B);
    assert_eq!(r, Ok(vec![112]));
    assert_eq!(m.dex.pool(m.t).quote_reserve, 1112);
    assert_eq!(m.dex.pool(m.t).liquidity_supply, 1000);
    assert_eq!(bal(&m, B, m.qt), 300 - 112);
    assert_eq!(bal(&m, m.vault, m.qt), 1112);
    assert_eq!(bal(&m, B, m.t), 50);
    assert_eq!(bal(&m, m.vault, m.t), 450);
}

#[test]
fn buying_over_budget_fails_unchanged() {
    let mut m = market(500, 10_000, 0, 300);
    m.dex.add_liquidity(&A, m.e, &A, vec![m.t], vec![500], vec![1000]).unwrap();
    let r = m.dex.currency_to_token(&B, m.e, vec![m.t], vec![50], 111, &B);
    assert_eq!(r, Err(DexError::MaxCurrencyAmountExceeded));
    assert_eq!(m.dex.pool(m.t).quote_reserve, 1000);
    assert_eq!(bal(&m, B, m.qt), 300);
    assert_eq!(bal(&m, m.vault, m.t), 500);
}

#[test]
fn buying_from_an_unfunded_pool_fails() {
    let mut m = market(500, 10_000, 0, 300);
    let r = m.dex.currency_to_token(&B, m.e, vec![m.t], vec![1], 300, &B);
    assert_eq!(r, Err(DexError::InsufficientLiquidity));
    let r = m.dex.currency_to_token(&B, m.e, vec![m.t], vec![1, 2], 300, &B);
    assert_eq!(r, Err(DexError::ArrayLengthMismatch));
    let r = m.dex.currency_to_token(&B, 4, vec![m.t], vec![1], 300, &B);
    assert_eq!(r, Err(DexError::InvalidExchangeId));
}

#[test]
fn liquidity_round_trip_restores_everything() {
    let mut m = market(500, 10_000, 0, 0);
    m.dex.add_liquidity(&A, m.e, &A, vec![m.t], vec![500], vec![1000]).unwrap();
    let r = m.dex.remove_liquidity(&A, m.e, &A, vec![m.t], vec![1000], vec![0], vec![0]);
    assert_eq!(r, Ok((vec![1000], vec![500])));
    assert_eq!(m.dex.pool(m.t), PoolState { quote_reserve: 0, liquidity_supply: 0 });
    assert_eq!(bal(&m, A, m.t), 500);
    assert_eq!(bal(&m, A, m.qt), 10_000);
    assert_eq!(bal(&m, m.vault, m.t), 0);
    assert_eq!(bal(&m, m.vault, m.qt), 0);
}

#[test]
fn removing_with_high_minimums_fails() {
    let mut m = market(500, 10_000, 0, 0);
    m.dex.add_liquidity(&A, m.e, &A, vec![m.t], vec![500], vec![1000]).unwrap();
    let r = m.dex.remove_liquidity(&A, m.e, &A, vec![m.t], vec![100], vec![101], vec![0]);
    assert_eq!(r, Err(DexError::InsufficientCurrencyAmount));
    let r = m.dex.remove_liquidity(&A, m.e, &A, vec![m.t], vec![100], vec![100], vec![51]);
    assert_eq!(r, Err(DexError::InsufficientTokenAmount));
    let r = m.dex.remove_liquidity(&A, m.e, &A, vec![m.t], vec![1001], vec![0], vec![0]);
    assert_eq!(r, Err(DexError::InsufficientLiquidity));
    assert_eq!(m.dex.pool(m.t), PoolState { quote_reserve: 1000, liquidity_supply: 1000 });
    let r = m.dex.remove_liquidity(&A, m.e, &A, vec![m.t], vec![100], vec![100], vec![50]);
    assert_eq!(r, Ok((vec![100], vec![50])));
    assert_eq!(m.dex.pool(m.t), PoolState { quote_reserve: 900, liquidity_supply: 900 });
}

#[test]
fn removing_from_an_unfunded_pool_fails() {
    let mut m = market(500, 10_000, 0, 0);
    let r = m.dex.remove_liquidity(&A, m.e, &A, vec![m.t], vec![1], vec![0], vec![0]);
    assert_eq!(r, Err(DexError::InsufficientLiquidity));
    let r = m.dex.remove_liquidity(&A, m.e, &A, vec![m.t], vec![1], vec![0], vec![]);
    assert_eq!(r, Err(DexError::ArrayLengthMismatch));
}

#[test]
fn funded_pool_charges_rounded_up_and_mints_rounded_down() {
    let mut m = market(400, 10_000, 0, 0);
    m.dex.add_liquidity(&A, m.e, &A, vec![m.t], vec![300], vec![1000]).unwrap();
    // 100 * 1000 / 300 = 333.3...: pay 334, receive shares for 333
    let r = m.dex.add_liquidity(&A, m.e, &A, vec![m.t], vec![100], vec![334]);
    assert_eq!(r, Ok(vec![334]));
    assert_eq!(m.dex.pool(m.t), PoolState { quote_reserve: 1334, liquidity_supply: 1333 });
    assert_eq!(bal(&m, A, m.t), 1333);
    assert_eq!(bal(&m, A, m.qt), 10_000 - 1000 - 334);
    assert_eq!(bal(&m, m.vault, m.t), 400);
}

#[test]
fn funded_pool_rejects_a_low_maximum() {
    let mut m = market(400, 10_000, 0, 0);
    m.dex.add_liquidity(&A, m.e, &A, vec![m.t], vec![300], vec![1000]).unwrap();
    let r = m.dex.add_liquidity(&A, m.e, &A, vec![m.t], vec![100], vec![333]);
    assert_eq!(r, Err(DexError::MaxCurrencyAmountExceeded));
    assert_eq!(bal(&m, A, m.t), 1100);
    assert_eq!(bal(&m, m.vault, m.t), 300);
}

#[test]
fn add_liquidity_validation_errors() {
    let mut m = market(500, 10_000, 0, 0);
    let (e, t, qt) = (m.e, m.t, m.qt);
    assert_eq!(
        m.dex.add_liquidity(&A, e, &A, vec![t], vec![5], vec![0]),
        Err(DexError::InvalidMaxCurrency)
    );
    assert_eq!(
        m.dex.add_liquidity(&A, e, &A, vec![t], vec![0], vec![1000]),
        Err(DexError::InsufficientTokenAmount)
    );
    assert_eq!(
        m.dex.add_liquidity(&A, e, &A, vec![qt], vec![5], vec![1000]),
        Err(DexError::SameCurrencyAndToken)
    );
    assert_eq!(
        m.dex.add_liquidity(&A, e, &A, vec![t], vec![5], vec![999]),
        Err(DexError::InvalidCurrencyAmount)
    );
    assert_eq!(
        m.dex.add_liquidity(&A, e, &A, vec![t], vec![5, 6], vec![1000]),
        Err(DexError::ArrayLengthMismatch)
    );
    assert_eq!(
        m.dex.add_liquidity(&A, e, &A, vec![t], vec![501], vec![1000]),
        Err(DexError::Ledger(LedgerError::InsufficientBalance))
    );
    assert_eq!(
        m.dex.add_liquidity(&A, e + 1, &A, vec![t], vec![5], vec![1000]),
        Err(DexError::InvalidExchangeId)
    );
    assert_eq!(bal(&m, A, t), 500);
    assert_eq!(bal(&m, A, qt), 10_000);
    assert_eq!(m.dex.pool(t), PoolState { quote_reserve: 0, liquidity_supply: 0 });
}

#[test]
fn exchange_with_unknown_currency_is_refused_on_use() {
    let mut m = market(500, 10_000, 0, 0);
    let e = m.dex.create_exchange(&A, 42).unwrap();
    let r = m.dex.add_liquidity(&A, e, &A, vec![m.t], vec![5], vec![1000]);
    assert_eq!(r, Err(DexError::InvalidCurrencyId));
}

#[test]
fn bootstrap_without_enough_quote_fails_unchanged() {
    let mut m = market(500, 999, 0, 0);
    let r = m.dex.add_liquidity(&A, m.e, &A, vec![m.t], vec![500], vec![1000]);
    assert_eq!(r, Err(DexError::Ledger(LedgerError::InsufficientBalance)));
    assert_eq!(bal(&m, A, m.t), 500);
    assert_eq!(m.dex.pool(m.t), PoolState { quote_reserve: 0, liquidity_supply: 0 });
}

#[test]
fn sell_tokens_for_quote() {
    let mut m = market(500, 10_000, 100, 0);
    m.dex.add_liquidity(&A, m.e, &A, vec![m.t], vec![500], vec![1000]).unwrap();
    // 100 * 995 * 1000 / (500 * 1000 + 100 * 995) = 165.9...
    let r = m.dex.token_to_currency(&B, m.e, vec![m.t], vec![100], 165, &B);
    assert_eq!(r, Ok(vec![165]));
    assert_eq!(m.dex.pool(m.t).quote_reserve, 835);
    assert_eq!(bal(&m, B, m.qt), 165);
    assert_eq!(bal(&m, B, m.t), 0);
    assert_eq!(bal(&m, m.vault, m.t), 600);
    assert_eq!(bal(&m, m.vault, m.qt), 835);
}

#[test]
fn selling_below_minimum_fails_unchanged() {
    let mut m = market(500, 10_000, 100, 0);
    m.dex.add_liquidity(&A, m.e, &A, vec![m.t], vec![500], vec![1000]).unwrap();
    let r = m.dex.token_to_currency(&B, m.e, vec![m.t], vec![100], 166, &B);
    assert_eq!(r, Err(DexError::InsufficientCurrencyAmount));
    assert_eq!(bal(&m, B, m.t), 100);
    assert_eq!(bal(&m, m.vault, m.t), 500);
    assert_eq!(m.dex.pool(m.t).quote_reserve, 1000);
    let r = m.dex.token_to_currency(&B, m.e, vec![m.t], vec![101], 0, &B);
    assert_eq!(r, Err(DexError::Ledger(LedgerError::InsufficientBalance)));
    let r = m.dex.token_to_currency(&B, m.e, vec![m.t], vec![0], 0, &B);
    assert_eq!(r, Err(DexError::InsufficientInputAmount));
}
