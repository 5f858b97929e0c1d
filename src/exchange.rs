//! The exchange: a registry of quote currencies and exchanges, per-token
//! pools, and the operations that trade against them and fund them. Each
//! operation works on staged copies of the balances and pools and installs
//! them only when every step has succeeded.
use vstd::prelude::*;

use crate::error::DexError;
use crate::ledger::{
    applied_each, batch_outcome, batch_transfer_outcome, moved, Balances, BalanceTable, LedgerError, Module as Ledger,
    Movement,
};
use crate::pools::{empty_pool, PoolState, PoolTable, Pools};
use crate::quote::{ceil_div, div_round, get_amount_in, get_amount_out, quote_in, quote_out};
use crate::types::{AccountId, CurrencyId, ExchangeId, TokenBalance, TokenId};

verus! {

/// The upper half of every vault account: the bytes "modlpy/d".
pub const VAULT_PREFIX: u128 = 0x6d6f_646c_7079_2f64;

/// The least quote amount that may open a pool.
pub const MIN_INITIAL_QUOTE: u64 = 1000;

/// The escrow account of an exchange: a fixed prefix above the exchange id.
pub open spec fn vault_of(exchange_id: ExchangeId) -> AccountId {
    (VAULT_PREFIX * 0x1_0000_0000_0000_0000 + exchange_id) as u128
}

/// A registered currency: its creator and the ledger token that carries it.
#[derive(Clone, Copy, Debug, PartialEq, Eq, Structural)]
pub struct CurrencyInfo {
    pub creator: AccountId,
    pub token: TokenId,
    pub total_supply: u128,
}

/// A registered exchange: its creator, its quote currency and its vault.
#[derive(Clone, Copy, Debug, PartialEq, Eq, Structural)]
pub struct ExchangeInfo {
    pub creator: AccountId,
    pub currency: CurrencyId,
    pub vault: AccountId,
}

/// The ledger token that carries currency `c`.
pub open spec fn currency_token(curs: Seq<CurrencyInfo>, c: CurrencyId) -> Result<
    TokenId,
    DexError,
> {
    if c < curs.len() {
        Ok(curs[c as int].token)
    } else {
        Err(DexError::InvalidCurrencyId)
    }
}

/// The exchange under `e` and the token of its quote currency.
pub open spec fn exchange_quote(exs: Seq<ExchangeInfo>, curs: Seq<CurrencyInfo>, e: ExchangeId) -> Result<
    (ExchangeInfo, TokenId),
    DexError,
> {
    if e < exs.len() {
        match currency_token(curs, exs[e as int].currency) {
            Ok(t) => Ok((exs[e as int], t)),
            Err(x) => Err(x),
        }
    } else {
        Err(DexError::InvalidExchangeId)
    }
}

/// The vault's balance of each token of a basket.
pub open spec fn reserves_of(b: Balances, vault: AccountId, ids: Seq<TokenId>) -> Seq<u64> {
    Seq::new(ids.len(), |i: int| b[(ids[i], vault)])
}

/// The running state of a basket: the pools, two lists of per-element
/// amounts, and a running quote total.
pub type Basket = (Pools, Seq<u64>, Seq<u64>, int);

/// The first `n` elements of a basket processed in order by `step`; the
/// first failure is the result.
pub open spec fn run(init: Basket, n: nat, step: spec_fn(Basket, int) -> Result<Basket, DexError>) -> Result<
    Basket,
    DexError,
>
    decreases n,
{
    if n == 0 {
        Ok(init)
    } else {
        match run(init, (n - 1) as nat, step) {
            Ok(s) => step(s, n - 1),
            Err(e) => Err(e),
        }
    }
}

proof fn lemma_run_fails(
    init: Basket,
    k: nat,
    n: nat,
    step: spec_fn(Basket, int) -> Result<Basket, DexError>,
    e: DexError,
)
    requires
        k <= n,
        run(init, k, step) == Err::<Basket, DexError>(e),
    ensures
        run(init, n, step) == Err::<Basket, DexError>(e),
    decreases n - k,
{
    if k < n {
        lemma_run_fails(init, k + 1, n, step, e);
    }
}

/// A basket before its first element: the pools as they are, nothing
/// recorded yet.
pub open spec fn start(p: Pools) -> Basket {
    (p, Seq::empty(), Seq::empty(), 0)
}

fn get_token_reserves(t: &BalanceTable, vault: AccountId, ids: &Vec<TokenId>) -> (r: Vec<
    TokenBalance,
>)
    requires
        t.wf(),
    ensures
        r@ == reserves_of(t@, vault, ids@),
{
    let mut r: Vec<TokenBalance> = Vec::new();
    let mut i: usize = 0;
    while i < ids.len()
        invariant
            t.wf(),
            i <= ids@.len(),
            r@.len() == i,
            forall|j: int| 0 <= j < i ==> #[trigger] r@[j] == t@[(ids@[j], vault)],
        decreases ids@.len() - i,
    {
        let b = t.get(ids[i], vault);
        r.push(b);
        i = i + 1;
    }
    assert(r@ =~= reserves_of(t@, vault, ids@));
    r
}

/// Buying tokens: each element's quote cost is drawn from the budget `max`
/// and added to the pool's quote reserve.
pub open spec fn buy_step(reserves: Seq<u64>, ids: Seq<TokenId>, outs: Seq<u64>, max: u64) -> spec_fn(
    Basket,
    int,
) -> Result<Basket, DexError> {
    |s: Basket, i: int|
        {
            let pool = s.0[ids[i]];
            match quote_in(outs[i], pool.quote_reserve, reserves[i]) {
                Err(e) => Err(e),
                Ok(a) => if s.3 + a > max {
                    Err(DexError::MaxCurrencyAmountExceeded)
                } else if pool.quote_reserve + a > u64::MAX {
                    Err(DexError::Overflow)
                } else {
                    Ok(
                        (
                            s.0.insert(
                                ids[i],
                                PoolState {
                                    quote_reserve: (pool.quote_reserve + a) as u64,
                                    liquidity_supply: pool.liquidity_supply,
                                },
                            ),
                            s.1.push(a),
                            s.2,
                            s.3 + a,
                        ),
                    )
                },
            }
        }
}

/// A ledger result, with its error carried as an exchange error.
pub open spec fn ledger_step(r: Result<Balances, LedgerError>) -> Result<Balances, DexError> {
    match r {
        Ok(b) => Ok(b),
        Err(e) => Err(DexError::Ledger(e)),
    }
}

/// Buying `outs[i]` of `ids[i]` for at most `max` quote in all: the budget
/// moves from `sender` to the vault, what was not spent comes back to
/// `sender`, and the tokens go from the vault to `to`. The result holds the
/// balances, the pools and the quote cost of each element.
pub open spec fn currency_to_token_outcome(
    b: Balances,
    p: Pools,
    ex: ExchangeInfo,
    qt: TokenId,
    sender: AccountId,
    ids: Seq<TokenId>,
    outs: Seq<u64>,
    max: u64,
    to: AccountId,
) -> Result<(Balances, Pools, Seq<u64>), DexError> {
    if ids.len() != outs.len() {
        Err(DexError::ArrayLengthMismatch)
    } else {
        match run(start(p), ids.len(), buy_step(reserves_of(b, ex.vault, ids), ids, outs, max)) {
            Err(e) => Err(e),
            Ok(s) => match ledger_step(moved(b, sender, ex.vault, qt, max)) {
                Err(e) => Err(e),
                Ok(b1) => match ledger_step(
                    if max - s.3 > 0 {
                        moved(b1, ex.vault, sender, qt, (max - s.3) as u64)
                    } else {
                        Ok(b1)
                    },
                ) {
                    Err(e) => Err(e),
                    Ok(b2) => match ledger_step(batch_transfer_outcome(b2, ex.vault, to, ids, outs)) {
                        Err(e) => Err(e),
                        Ok(b3) => Ok((b3, s.0, s.1)),
                    },
                },
            },
        }
    }
}

/// Selling tokens: each element's proceeds are priced against the token
/// reserve as it stood before the element's tokens arrived, and taken from
/// the pool's quote reserve.
pub open spec fn sell_step(reserves: Seq<u64>, ids: Seq<TokenId>, ins: Seq<u64>) -> spec_fn(
    Basket,
    int,
) -> Result<Basket, DexError> {
    |s: Basket, i: int|
        {
            let pool = s.0[ids[i]];
            if reserves[i] < ins[i] {
                Err(DexError::InsufficientLiquidity)
            } else {
                match quote_out(ins[i], (reserves[i] - ins[i]) as u64, pool.quote_reserve) {
                    Err(e) => Err(e),
                    Ok(a) => if s.3 + a > u64::MAX {
                        Err(DexError::Overflow)
                    } else {
                        Ok(
                            (
                                s.0.insert(
                                    ids[i],
                                    PoolState {
                                        quote_reserve: (pool.quote_reserve - a) as u64,
                                        liquidity_supply: pool.liquidity_supply,
                                    },
                                ),
                                s.1.push(a),
                                s.2,
                                s.3 + a,
                            ),
                        )
                    },
                }
            }
        }
}

/// Selling `ins[i]` of `ids[i]`: the tokens move from `sender` to the vault
/// first, the proceeds are priced, and their total, if at least `min`, goes
/// from the vault to `to`. The result holds the balances, the pools and the
/// proceeds of each element.
pub open spec fn token_to_currency_outcome(
    b: Balances,
    p: Pools,
    ex: ExchangeInfo,
    qt: TokenId,
    sender: AccountId,
    ids: Seq<TokenId>,
    ins: Seq<u64>,
    min: u64,
    to: AccountId,
) -> Result<(Balances, Pools, Seq<u64>), DexError> {
    if ids.len() != ins.len() {
        Err(DexError::ArrayLengthMismatch)
    } else {
        match ledger_step(batch_transfer_outcome(b, sender, ex.vault, ids, ins)) {
            Err(e) => Err(e),
            Ok(b1) => match run(start(p), ids.len(), sell_step(reserves_of(b1, ex.vault, ids), ids, ins)) {
                Err(e) => Err(e),
                Ok(s) => if s.3 < min {
                    Err(DexError::InsufficientCurrencyAmount)
                } else {
                    match ledger_step(moved(b1, ex.vault, to, qt, s.3 as u64)) {
                        Err(e) => Err(e),
                        Ok(b2) => Ok((b2, s.0, s.1)),
                    }
                },
            },
        }
    }
}

/// Funding pools. A pool with shares outstanding takes quote in proportion
/// to the tokens deposited, rounded up, and mints shares for that quote
/// rounded down; an unfunded pool is opened with the caller's maximum as
/// its quote reserve, minting as many shares. Records shares minted, quote
/// taken and the quote total.
pub open spec fn deposit_step(
    reserves: Seq<u64>,
    ids: Seq<TokenId>,
    amounts: Seq<u64>,
    maxes: Seq<u64>,
    qt: TokenId,
) -> spec_fn(Basket, int) -> Result<Basket, DexError> {
    |s: Basket, i: int|
        {
            let pool = s.0[ids[i]];
            let cr = pool.quote_reserve;
            let l = pool.liquidity_supply;
            if maxes[i] == 0 {
                Err(DexError::InvalidMaxCurrency)
            } else if amounts[i] == 0 {
                Err(DexError::InsufficientTokenAmount)
            } else if ids[i] == qt {
                Err(DexError::SameCurrencyAndToken)
            } else if l > 0 {
                if cr == 0 || reserves[i] <= amounts[i] {
                    Err(DexError::InsufficientLiquidity)
                } else {
                    let num = amounts[i] * cr;
                    let den = reserves[i] - amounts[i];
                    let cost = ceil_div(num, den);
                    let minted = (num / den) * l / cr as int;
                    if cost > maxes[i] {
                        Err(DexError::MaxCurrencyAmountExceeded)
                    } else if s.3 + cost > u64::MAX || minted > u64::MAX || cr + cost > u64::MAX
                        || l + minted > u64::MAX {
                        Err(DexError::Overflow)
                    } else {
                        Ok(
                            (
                                s.0.insert(
                                    ids[i],
                                    PoolState {
                                        quote_reserve: (cr + cost) as u64,
                                        liquidity_supply: (l + minted) as u64,
                                    },
                                ),
                                s.1.push(minted as u64),
                                s.2.push(cost as u64),
                                s.3 + cost,
                            ),
                        )
                    }
                }
            } else if maxes[i] < MIN_INITIAL_QUOTE {
                Err(DexError::InvalidCurrencyAmount)
            } else if s.3 + maxes[i] > u64::MAX {
                Err(DexError::Overflow)
            } else {
                Ok(
                    (
                        s.0.insert(
                            ids[i],
                            PoolState { quote_reserve: maxes[i], liquidity_supply: maxes[i] },
                        ),
                        s.1.push(maxes[i]),
                        s.2.push(maxes[i]),
                        s.3 + maxes[i],
                    ),
                )
            }
        }
}

/// Adding liquidity: the tokens move from `sender` to the vault, the pools
/// are funded, the shares are minted to `to` under each pooled token's own
/// identifier, and the quote total moves from `sender` to the vault. The
/// result holds the balances, the pools and the quote taken per element.
pub open spec fn add_liquidity_outcome(
    b: Balances,
    p: Pools,
    ex: ExchangeInfo,
    qt: TokenId,
    sender: AccountId,
    to: AccountId,
    ids: Seq<TokenId>,
    amounts: Seq<u64>,
    maxes: Seq<u64>,
) -> Result<(Balances, Pools, Seq<u64>), DexError> {
    if ids.len() != amounts.len() || ids.len() != maxes.len() {
        Err(DexError::ArrayLengthMismatch)
    } else {
        match ledger_step(batch_transfer_outcome(b, sender, ex.vault, ids, amounts)) {
            Err(e) => Err(e),
            Ok(b1) => match run(
                start(p),
                ids.len(),
                deposit_step(reserves_of(b1, ex.vault, ids), ids, amounts, maxes, qt),
            ) {
                Err(e) => Err(e),
                Ok(s) => match ledger_step(batch_outcome(b1, Movement::Credit(to), ids, s.1)) {
                    Err(e) => Err(e),
                    Ok(b2) => match ledger_step(moved(b2, sender, ex.vault, qt, s.3 as u64)) {
                        Err(e) => Err(e),
                        Ok(b3) => Ok((b3, s.0, s.2)),
                    },
                },
            },
        }
    }
}

/// Redeeming shares: each element pays out its proportional part of the
/// pool's quote reserve and of the vault's token reserve, both rounded
/// down. Records quote paid, tokens paid and the quote total.
pub open spec fn withdraw_step(
    reserves: Seq<u64>,
    ids: Seq<TokenId>,
    liquidities: Seq<u64>,
    min_quotes: Seq<u64>,
    min_tokens: Seq<u64>,
) -> spec_fn(Basket, int) -> Result<Basket, DexError> {
    |s: Basket, i: int|
        {
            let pool = s.0[ids[i]];
            let l = pool.liquidity_supply;
            let cr = pool.quote_reserve;
            let x = liquidities[i];
            if l == 0 || x > l {
                Err(DexError::InsufficientLiquidity)
            } else {
                let q = x * cr / l as int;
                let t = x * reserves[i] / l as int;
                if q < min_quotes[i] {
                    Err(DexError::InsufficientCurrencyAmount)
                } else if t < min_tokens[i] {
                    Err(DexError::InsufficientTokenAmount)
                } else if s.3 + q > u64::MAX {
                    Err(DexError::Overflow)
                } else {
                    Ok(
                        (
                            s.0.insert(
                                ids[i],
                                PoolState {
                                    quote_reserve: (cr - q) as u64,
                                    liquidity_supply: (l - x) as u64,
                                },
                            ),
                            s.1.push(q as u64),
                            s.2.push(t as u64),
                            s.3 + q,
                        ),
                    )
                }
            }
        }
}

/// Removing liquidity: the pools are drawn down, the shares are burned from
/// `sender`, and the quote total and the tokens move from the vault to
/// `to`. The result holds the balances, the pools, and the quote and the
/// tokens paid per element.
pub open spec fn remove_liquidity_outcome(
    b: Balances,
    p: Pools,
    ex: ExchangeInfo,
    qt: TokenId,
    sender: AccountId,
    to: AccountId,
    ids: Seq<TokenId>,
    liquidities: Seq<u64>,
    min_quotes: Seq<u64>,
    min_tokens: Seq<u64>,
) -> Result<(Balances, Pools, Seq<u64>, Seq<u64>), DexError> {
    if ids.len() != liquidities.len() || ids.len() != min_quotes.len() || ids.len()
        != min_tokens.len() {
        Err(DexError::ArrayLengthMismatch)
    } else {
        match run(
            start(p),
            ids.len(),
            withdraw_step(reserves_of(b, ex.vault, ids), ids, liquidities, min_quotes, min_tokens),
        ) {
            Err(e) => Err(e),
            Ok(s) => match ledger_step(batch_outcome(b, Movement::Debit(sender), ids, liquidities)) {
                Err(e) => Err(e),
                Ok(b1) => match ledger_step(moved(b1, ex.vault, to, qt, s.3 as u64)) {
                    Err(e) => Err(e),
                    Ok(b2) => match ledger_step(batch_transfer_outcome(b2, ex.vault, to, ids, s.2)) {
                        Err(e) => Err(e),
                        Ok(b3) => Ok((b3, s.0, s.1, s.2)),
                    },
                },
            },
        }
    }
}

/// The exchange module: the ledger it keeps its books in, the currency and
/// exchange registries, and the pools.
pub struct Module {
    ledger: Ledger,
    currencies: Vec<CurrencyInfo>,
    exchanges: Vec<ExchangeInfo>,
    pools: PoolTable,
}

impl Module {
    pub closed spec fn wf(&self) -> bool {
        &&& self.ledger.wf()
        &&& self.pools.wf()
    }

    /// Registered currencies; a currency's identifier is its index.
    pub closed spec fn currencies(&self) -> Seq<CurrencyInfo> {
        self.currencies@
    }

    /// Registered exchanges; an exchange's identifier is its index.
    pub closed spec fn exchanges(&self) -> Seq<ExchangeInfo> {
        self.exchanges@
    }

    pub closed spec fn pools(&self) -> Pools {
        self.pools@
    }

    /// The ledger the exchange keeps its books in.
    pub closed spec fn books(&self) -> Ledger {
        self.ledger
    }

    /// The registries and the books apart from balances and pools.
    pub open spec fn same_registries(&self, other: &Module) -> bool {
        &&& self.currencies() == other.currencies()
        &&& self.exchanges() == other.exchanges()
        &&& self.books().classes() == other.books().classes()
    }

    /// An exchange state that keeps its books in `ledger`, with no currency,
    /// exchange or pool registered.
    pub fn new(ledger: Ledger) -> (r: Module)
        requires
            ledger.wf(),
        ensures
            r.wf(),
            r.currencies().len() == 0,
            r.exchanges().len() == 0,
            r.books() == ledger,
            forall|t: TokenId| #[trigger] r.pools()[t] == empty_pool(),
    {
        Module {
            ledger,
            currencies: Vec::new(),
            exchanges: Vec::new(),
            pools: PoolTable::new(),
        }
    }

    /// Derives the escrow account of exchange `exchange_id`. Distinct
    /// exchanges get distinct accounts.
    pub fn account_id(exchange_id: ExchangeId) -> (r: AccountId)
        ensures
            r == vault_of(exchange_id),
    {
        VAULT_PREFIX * 0x1_0000_0000_0000_0000u128 + exchange_id as u128
    }

    /// Registers a currency carried by a new ledger token.
    pub fn create_currency(&mut self, who: &AccountId, token_uri: &Vec<u8>) -> (r: Result<
        CurrencyId,
        DexError,
    >)
        requires
            old(self).wf(),
        ensures
            final(self).wf(),
            final(self).exchanges() == old(self).exchanges(),
            final(self).pools() == old(self).pools(),
            final(self).books()@ == old(self).books()@,
            match r {
                Ok(c) => c == old(self).currencies().len() && final(self).currencies() == old(
                    self,
                ).currencies().push(
                    CurrencyInfo {
                        creator: *who,
                        token: old(self).books().classes().len() as u64,
                        total_supply: 0,
                    },
                ) && final(self).books().classes() == old(self).books().classes().push(
                    (*who, true, token_uri@),
                ),
                Err(_) => *final(self) == *old(self),
            },
    {
        if self.currencies.len() as u128 >= u64::MAX as u128 {
            return Err(DexError::Overflow);
        }
        let token = match self.ledger.create_token(who, true, token_uri) {
            Ok(t) => t,
            Err(e) => {
                return Err(DexError::Ledger(e));
            },
        };
        let id = self.currencies.len() as u64;
        self.currencies.push(CurrencyInfo { creator: *who, token, total_supply: 0 });
        Ok(id)
    }

    /// The ledger token of currency `currency_id`.
    pub fn get_currency_token(&self, currency_id: &CurrencyId) -> (r: Result<TokenId, DexError>)
        ensures
            r == currency_token(self.currencies(), *currency_id),
    {
        if (*currency_id as u128) < (self.currencies.len() as u128) {
            Ok(self.currencies[*currency_id as usize].token)
        } else {
            Err(DexError::InvalidCurrencyId)
        }
    }

    /// Mints `amount` of currency `currency_id` to `to`.
    pub fn mint_currency(&mut self, currency_id: CurrencyId, amount: TokenBalance, to: &AccountId) -> (r:
        Result<(), DexError>)
        requires
            old(self).wf(),
        ensures
            final(self).wf(),
            final(self).same_registries(&*old(self)),
            final(self).pools() == old(self).pools(),
            match currency_token(old(self).currencies(), currency_id) {
                Err(e) => r == Err::<(), DexError>(e) && *final(self) == *old(self),
                Ok(t) => match r {
                    Ok(_) => crate::ledger::credited(old(self).books()@, t, *to, amount) == Ok::<
                        Balances,
                        LedgerError,
                    >(final(self).books()@),
                    Err(e) => ledger_step(crate::ledger::credited(old(self).books()@, t, *to, amount))
                        == Err::<Balances, DexError>(e) && *final(self) == *old(self),
                },
            },
    {
        let token = match self.get_currency_token(&currency_id) {
            Ok(t) => t,
            Err(e) => {
                return Err(e);
            },
        };
        match self.ledger.mint(to, &token, amount) {
            Ok(_) => Ok(()),
            Err(e) => Err(DexError::Ledger(e)),
        }
    }

    /// Moves `amount` of currency `currency_id` from `from` to `to`.
    pub fn do_transfer_from(
        &mut self,
        from: &AccountId,
        to: &AccountId,
        currency_id: &CurrencyId,
        amount: TokenBalance,
    ) -> (r: Result<(), DexError>)
        requires
            old(self).wf(),
        ensures
            final(self).wf(),
            final(self).same_registries(&*old(self)),
            final(self).pools() == old(self).pools(),
            match currency_token(old(self).currencies(), *currency_id) {
                Err(e) => r == Err::<(), DexError>(e) && *final(self) == *old(self),
                Ok(t) => match r {
                    Ok(_) => moved(old(self).books()@, *from, *to, t, amount) == Ok::<
                        Balances,
                        LedgerError,
                    >(final(self).books()@),
                    Err(e) => ledger_step(moved(old(self).books()@, *from, *to, t, amount)) == Err::<
                        Balances,
                        DexError,
                    >(e) && *final(self) == *old(self),
                },
            },
    {
        let token = match self.get_currency_token(currency_id) {
            Ok(t) => t,
            Err(e) => {
                return Err(e);
            },
        };
        match self.ledger.transfer_from(from, to, &token, amount) {
            Ok(_) => Ok(()),
            Err(e) => Err(DexError::Ledger(e)),
        }
    }

    /// Registers an exchange quoting in `currency_id`, with its vault derived
    /// from its fresh identifier.
    pub fn create_exchange(&mut self, sender: &AccountId, currency_id: CurrencyId) -> (r: Result<
        ExchangeId,
        DexError,
    >)
        requires
            old(self).wf(),
        ensures
            final(self).wf(),
            final(self).currencies() == old(self).currencies(),
            final(self).pools() == old(self).pools(),
            final(self).books() == old(self).books(),
            match r {
                Ok(e) => e == old(self).exchanges().len() && final(self).exchanges() == old(
                    self,
                ).exchanges().push(
                    ExchangeInfo { creator: *sender, currency: currency_id, vault: vault_of(e) },
                ),
                Err(e) => e == DexError::Overflow && old(self).exchanges().len() >= u64::MAX
                    && *final(self) == *old(self),
            },
    {
        if self.exchanges.len() as u128 >= u64::MAX as u128 {
            return Err(DexError::Overflow);
        }
        let id = self.exchanges.len() as u64;
        let vault = Self::account_id(id);
        self.exchanges.push(ExchangeInfo { creator: *sender, currency: currency_id, vault });
        Ok(id)
    }

    /// The exchange registered under `exchange_id`, if any.
    pub fn exchange(&self, exchange_id: ExchangeId) -> (r: Option<ExchangeInfo>)
        ensures
            match r {
                Some(e) => exchange_id < self.exchanges().len() && e == self.exchanges()[exchange_id as int],
                None => exchange_id >= self.exchanges().len(),
            },
    {
        if (exchange_id as u128) < (self.exchanges.len() as u128) {
            Some(self.exchanges[exchange_id as usize])
        } else {
            None
        }
    }

    /// The ledger the exchange keeps its books in.
    pub fn ledger(&self) -> (r: &Ledger)
        ensures
            *r == self.books(),
    {
        &self.ledger
    }

    /// The pool of token `id`.
    pub fn pool(&self, id: TokenId) -> (r: PoolState)
        requires
            self.wf(),
        ensures
            r == self.pools()[id],
    {
        self.pools.get(id)
    }

    fn exchange_and_quote(&self, exchange_id: ExchangeId) -> (r: Result<
        (ExchangeInfo, TokenId),
        DexError,
    >)
        ensures
            r == exchange_quote(self.exchanges(), self.currencies(), exchange_id),
    {
        let ex = match self.exchange(exchange_id) {
            Some(e) => e,
            None => {
                return Err(DexError::InvalidExchangeId);
            },
        };
        match self.get_currency_token(&ex.currency) {
            Ok(t) => Ok((ex, t)),
            Err(e) => Err(e),
        }
    }

    /// Buys `token_amounts_out[i]` of `token_ids[i]` from exchange
    /// `exchange_id` for at most `max_currency` quote in all. The budget moves
    /// from `sender` to the vault, each element's cost (rounded up) is drawn
    /// from it and added to that pool's quote reserve, the rest goes back to
    /// `sender`, and the tokens go from the vault to `to`. Returns the cost of
    /// each element. All or nothing.
    pub fn currency_to_token(
        &mut self,
        sender: &AccountId,
        exchange_id: ExchangeId,
        token_ids: Vec<TokenId>,
        token_amounts_out: Vec<TokenBalance>,
        max_currency: TokenBalance,
        to: &AccountId,
    ) -> (r: Result<Vec<TokenBalance>, DexError>)
        requires
            old(self).wf(),
        ensures
            final(self).wf(),
            final(self).same_registries(&*old(self)),
            match exchange_quote(old(self).exchanges(), old(self).currencies(), exchange_id) {
                Err(e) => r == Err::<Vec<TokenBalance>, DexError>(e) && *final(self) == *old(self),
                Ok((ex, qt)) => match r {
                    Ok(v) => currency_to_token_outcome(
                        old(self).books()@,
                        old(self).pools(),
                        ex,
                        qt,
                        *sender,
                        token_ids@,
                        token_amounts_out@,
                        max_currency,
                        *to,
                    ) == Ok::<(Balances, Pools, Seq<u64>), DexError>(
                        (final(self).books()@, final(self).pools(), v@),
                    ),
                    Err(e) => currency_to_token_outcome(
                        old(self).books()@,
                        old(self).pools(),
                        ex,
                        qt,
                        *sender,
                        token_ids@,
                        token_amounts_out@,
                        max_currency,
                        *to,
                    ) == Err::<(Balances, Pools, Seq<u64>), DexError>(e) && *final(self) == *old(
                        self,
                    ),
                },
            },
    {
        let (ex, qt) = match self.exchange_and_quote(exchange_id) {
            Ok(x) => x,
            Err(e) => {
                return Err(e);
            },
        };
        if token_ids.len() != token_amounts_out.len() {
            return Err(DexError::ArrayLengthMismatch);
        }
        let n = token_ids.len();
        let mut staged = self.ledger.stage();
        let reserves = get_token_reserves(&staged, ex.vault, &token_ids);
        let mut pools = self.pools.copy();
        let mut amounts_in: Vec<TokenBalance> = Vec::new();
        let mut spent: u64 = 0;
        let ghost step = buy_step(reserves@, token_ids@, token_amounts_out@, max_currency);
        let ghost init = start(self.pools@);
        let mut i: usize = 0;
        while i < n
            invariant
                *self == *old(self),
                self.wf(),
                staged.wf(),
                staged@ == self.books()@,
                n == token_ids@.len(),
                n == token_amounts_out@.len(),
                n == reserves@.len(),
                i <= n,
                pools.wf(),
                spent <= max_currency,
                step == buy_step(reserves@, token_ids@, token_amounts_out@, max_currency),
                init == start(self.pools@),
                exchange_quote(self.exchanges(), self.currencies(), exchange_id) == Ok::<
                    (ExchangeInfo, TokenId),
                    DexError,
                >((ex, qt)),
                reserves@ == reserves_of(self.books()@, ex.vault, token_ids@),
                run(init, i as nat, step) == Ok::<Basket, DexError>(
                    (pools@, amounts_in@, Seq::<u64>::empty(), spent as int),
                ),
            decreases n - i,
        {
            let id = token_ids[i];
            let pool = pools.get(id);
            let cost = match get_amount_in(token_amounts_out[i], pool.quote_reserve, reserves[i]) {
                Ok(a) => a,
                Err(e) => {
                    proof {
                        lemma_run_fails(init, (i + 1) as nat, n as nat, step, e);
                    }
                    return Err(e);
                },
            };
            if cost > max_currency - spent {
                proof {
                    lemma_run_fails(
                        init,
                        (i + 1) as nat,
                        n as nat,
                        step,
                        DexError::MaxCurrencyAmountExceeded,
                    );
                }
                return Err(DexError::MaxCurrencyAmountExceeded);
            }
            if pool.quote_reserve > u64::MAX - cost {
                proof {
                    lemma_run_fails(init, (i + 1) as nat, n as nat, step, DexError::Overflow);
                }
                return Err(DexError::Overflow);
            }
            pools.set(
                id,
                PoolState {
                    quote_reserve: pool.quote_reserve + cost,
                    liquidity_supply: pool.liquidity_supply,
                },
            );
            amounts_in.push(cost);
            spent = spent + cost;
            i = i + 1;
        }
        match staged.apply(Movement::Transfer(*sender, ex.vault), qt, max_currency) {
            Ok(_) => {},
            Err(e) => {
                return Err(DexError::Ledger(e));
            },
        }
        let refund = max_currency - spent;
        if refund > 0 {
            match staged.apply(Movement::Transfer(ex.vault, *sender), qt, refund) {
                Ok(_) => {},
                Err(e) => {
                    return Err(DexError::Ledger(e));
                },
            }
        }
        if ex.vault != *to {
            match staged.apply_batch(
                Movement::Transfer(ex.vault, *to),
                &token_ids,
                &token_amounts_out,
            ) {
                Ok(_) => {},
                Err(e) => {
                    return Err(DexError::Ledger(e));
                },
            }
        }
        self.ledger.commit(staged);
        self.pools = pools;
        Ok(amounts_in)
    }

    /// Sells `token_amounts_in[i]` of `token_ids[i]` to exchange
    /// `exchange_id`. The tokens move from `sender` to the vault, each
    /// element's proceeds (rounded down) are taken from that pool's quote
    /// reserve, and their total goes from the vault to `to`; fails with
    /// `InsufficientCurrencyAmount` where the total is below `min_currency`.
    /// Returns the proceeds of each element. All or nothing.
    pub fn token_to_currency(
        &mut self,
        sender: &AccountId,
        exchange_id: ExchangeId,
        token_ids: Vec<TokenId>,
        token_amounts_in: Vec<TokenBalance>,
        min_currency: TokenBalance,
        to: &AccountId,
    ) -> (r: Result<Vec<TokenBalance>, DexError>)
        requires
            old(self).wf(),
        ensures
            final(self).wf(),
            final(self).same_registries(&*old(self)),
            match exchange_quote(old(self).exchanges(), old(self).currencies(), exchange_id) {
                Err(e) => r == Err::<Vec<TokenBalance>, DexError>(e) && *final(self) == *old(self),
                Ok((ex, qt)) => match r {
                    Ok(v) => token_to_currency_outcome(
                        old(self).books()@,
                        old(self).pools(),
                        ex,
                        qt,
                        *sender,
                        token_ids@,
                        token_amounts_in@,
                        min_currency,
                        *to,
                    ) == Ok::<(Balances, Pools, Seq<u64>), DexError>(
                        (final(self).books()@, final(self).pools(), v@),
                    ),
                    Err(e) => token_to_currency_outcome(
                        old(self).books()@,
                        old(self).pools(),
                        ex,
                        qt,
                        *sender,
                        token_ids@,
                        token_amounts_in@,
                        min_currency,
                        *to,
                    ) == Err::<(Balances, Pools, Seq<u64>), DexError>(e) && *final(self) == *old(
                        self,
                    ),
                },
            },
    {
        let (ex, qt) = match self.exchange_and_quote(exchange_id) {
            Ok(x) => x,
            Err(e) => {
                return Err(e);
            },
        };
        if token_ids.len() != token_amounts_in.len() {
            return Err(DexError::ArrayLengthMismatch);
        }
        let n = token_ids.len();
        let mut staged = self.ledger.stage();
        if *sender != ex.vault {
            match staged.apply_batch(
                Movement::Transfer(*sender, ex.vault),
                &token_ids,
                &token_amounts_in,
            ) {
                Ok(_) => {},
                Err(e) => {
                    return Err(DexError::Ledger(e));
                },
            }
        }
        let reserves = get_token_reserves(&staged, ex.vault, &token_ids);
        let mut pools = self.pools.copy();
        let mut amounts_out: Vec<TokenBalance> = Vec::new();
        let mut total: u64 = 0;
        let ghost step = sell_step(reserves@, token_ids@, token_amounts_in@);
        let ghost init = start(self.pools@);
        let ghost b1 = staged@;
        let mut i: usize = 0;
        while i < n
            invariant
                *self == *old(self),
                self.wf(),
                staged.wf(),
                staged@ == b1,
                ledger_step(
                    batch_transfer_outcome(
                        self.books()@,
                        *sender,
                        ex.vault,
                        token_ids@,
                        token_amounts_in@,
                    ),
                ) == Ok::<Balances, DexError>(b1),
                n == token_ids@.len(),
                n == token_amounts_in@.len(),
                n == reserves@.len(),
                i <= n,
                pools.wf(),
                step == sell_step(reserves@, token_ids@, token_amounts_in@),
                init == start(self.pools@),
                exchange_quote(self.exchanges(), self.currencies(), exchange_id) == Ok::<
                    (ExchangeInfo, TokenId),
                    DexError,
                >((ex, qt)),
                reserves@ == reserves_of(b1, ex.vault, token_ids@),
                run(init, i as nat, step) == Ok::<Basket, DexError>(
                    (pools@, amounts_out@, Seq::<u64>::empty(), total as int),
                ),
            decreases n - i,
        {
            let id = token_ids[i];
            let amount = token_amounts_in[i];
            let pool = pools.get(id);
            if reserves[i] < amount {
                proof {
                    lemma_run_fails(
                        init,
                        (i + 1) as nat,
                        n as nat,
                        step,
                        DexError::InsufficientLiquidity,
                    );
                }
                return Err(DexError::InsufficientLiquidity);
            }
            let proceeds = match get_amount_out(amount, reserves[i] - amount, pool.quote_reserve) {
                Ok(a) => a,
                Err(e) => {
                    proof {
                        lemma_run_fails(init, (i + 1) as nat, n as nat, step, e);
                    }
                    return Err(e);
                },
            };
            if total > u64::MAX - proceeds {
                proof {
                    lemma_run_fails(init, (i + 1) as nat, n as nat, step, DexError::Overflow);
                }
                return Err(DexError::Overflow);
            }
            pools.set(
                id,
                PoolState {
                    quote_reserve: pool.quote_reserve - proceeds,
                    liquidity_supply: pool.liquidity_supply,
                },
            );
            amounts_out.push(proceeds);
            total = total + proceeds;
            i = i + 1;
        }
        if total < min_currency {
            return Err(DexError::InsufficientCurrencyAmount);
        }
        match staged.apply(Movement::Transfer(ex.vault, *to), qt, total) {
            Ok(_) => {},
            Err(e) => {
                return Err(DexError::Ledger(e));
            },
        }
        self.ledger.commit(staged);
        self.pools = pools;
        Ok(amounts_out)
    }

    /// Adds liquidity to exchange `exchange_id`: `token_amounts[i]` of
    /// `token_ids[i]` move from `sender` to the vault, with at most
    /// `max_currencys[i]` quote for each. Shares are minted to `to` and the
    /// quote total moves from `sender` to the vault. Returns the quote taken
    /// per element. All or nothing.
    pub fn add_liquidity(
        &mut self,
        sender: &AccountId,
        exchange_id: ExchangeId,
        to: &AccountId,
        token_ids: Vec<TokenId>,
        token_amounts: Vec<TokenBalance>,
        max_currencys: Vec<TokenBalance>,
    ) -> (r: Result<Vec<TokenBalance>, DexError>)
        requires
            old(self).wf(),
        ensures
            final(self).wf(),
            final(self).same_registries(&*old(self)),
            match exchange_quote(old(self).exchanges(), old(self).currencies(), exchange_id) {
                Err(e) => r == Err::<Vec<TokenBalance>, DexError>(e) && *final(self) == *old(self),
                Ok((ex, qt)) => match r {
                    Ok(v) => add_liquidity_outcome(
                        old(self).books()@,
                        old(self).pools(),
                        ex,
                        qt,
                        *sender,
                        *to,
                        token_ids@,
                        token_amounts@,
                        max_currencys@,
                    ) == Ok::<(Balances, Pools, Seq<u64>), DexError>(
                        (final(self).books()@, final(self).pools(), v@),
                    ),
                    Err(e) => add_liquidity_outcome(
                        old(self).books()@,
                        old(self).pools(),
                        ex,
                        qt,
                        *sender,
                        *to,
                        token_ids@,
                        token_amounts@,
                        max_currencys@,
                    ) == Err::<(Balances, Pools, Seq<u64>), DexError>(e) && *final(self) == *old(
                        self,
                    ),
                },
            },
    {
        let (ex, qt) = match self.exchange_and_quote(exchange_id) {
            Ok(x) => x,
            Err(e) => {
                return Err(e);
            },
        };
        if token_ids.len() != token_amounts.len() || token_ids.len() != max_currencys.len() {
            return Err(DexError::ArrayLengthMismatch);
        }
        let n = token_ids.len();
        let mut staged = self.ledger.stage();
        if *sender != ex.vault {
            match staged.apply_batch(Movement::Transfer(*sender, ex.vault), &token_ids, &token_amounts) {
                Ok(_) => {},
                Err(e) => {
                    return Err(DexError::Ledger(e));
                },
            }
        }
        let reserves = get_token_reserves(&staged, ex.vault, &token_ids);
        let mut pools = self.pools.copy();
        let mut minted: Vec<TokenBalance> = Vec::new();
        let mut costs: Vec<TokenBalance> = Vec::new();
        let mut total: u64 = 0;
        let ghost step = deposit_step(reserves@, token_ids@, token_amounts@, max_currencys@, qt);
        let ghost init = start(self.pools@);
        let ghost b1 = staged@;
        let mut i: usize = 0;
        while i < n
            invariant
                *self == *old(self),
                self.wf(),
                staged.wf(),
                staged@ == b1,
                ledger_step(
                    batch_transfer_outcome(
                        self.books()@,
                        *sender,
                        ex.vault,
                        token_ids@,
                        token_amounts@,
                    ),
                ) == Ok::<Balances, DexError>(b1),
                n == token_ids@.len(),
                n == token_amounts@.len(),
                n == max_currencys@.len(),
                n == reserves@.len(),
                i <= n,
                minted@.len() == i,
                pools.wf(),
                step == deposit_step(reserves@, token_ids@, token_amounts@, max_currencys@, qt),
                init == start(self.pools@),
                exchange_quote(self.exchanges(), self.currencies(), exchange_id) == Ok::<
                    (ExchangeInfo, TokenId),
                    DexError,
                >((ex, qt)),
                reserves@ == reserves_of(b1, ex.vault, token_ids@),
                run(init, i as nat, step) == Ok::<Basket, DexError>(
                    (pools@, minted@, costs@, total as int),
                ),
            decreases n - i,
        {
            let id = token_ids[i];
            let amount = token_amounts[i];
            let max = max_currencys[i];
            let pool = pools.get(id);
            let cr = pool.quote_reserve;
            let l = pool.liquidity_supply;
            let ghost s = (pools@, minted@, costs@, total as int);
            let mut err: Option<DexError> = None;
            if max == 0 {
                err = Some(DexError::InvalidMaxCurrency);
            } else if amount == 0 {
                err = Some(DexError::InsufficientTokenAmount);
            } else if id == qt {
                err = Some(DexError::SameCurrencyAndToken);
            } else if l > 0 {
                if cr == 0 || reserves[i] <= amount {
                    err = Some(DexError::InsufficientLiquidity);
                } else {
                    assert((amount as u128) * (cr as u128) <= u128::MAX) by (nonlinear_arith)
                        requires
                            amount <= u64::MAX,
                            cr <= u64::MAX,
                    ;
                    let num: u128 = amount as u128 * cr as u128;
                    let den: u128 = (reserves[i] - amount) as u128;
                    let (cost, rounded) = div_round(num, den);
                    if cost > max as u128 {
                        err = Some(DexError::MaxCurrencyAmountExceeded);
                    } else {
                        let whole: u128 = if rounded {
                            cost - 1
                        } else {
                            cost
                        };
                        assert(whole == num / den);
                        assert(whole * (l as u128) <= u128::MAX) by (nonlinear_arith)
                            requires
                                whole <= u64::MAX,
                                l <= u64::MAX,
                        ;
                        let shares: u128 = whole * l as u128 / cr as u128;
                        if total as u128 + cost > u64::MAX as u128 || shares > u64::MAX as u128
                            || cr as u128 + cost > u64::MAX as u128 || l as u128 + shares
                            > u64::MAX as u128 {
                            err = Some(DexError::Overflow);
                        } else {
                            pools.set(
                                id,
                                PoolState {
                                    quote_reserve: cr + cost as u64,
                                    liquidity_supply: l + shares as u64,
                                },
                            );
                            minted.push(shares as u64);
                            costs.push(cost as u64);
                            total = total + cost as u64;
                        }
                    }
                }
            } else if max < MIN_INITIAL_QUOTE {
                err = Some(DexError::InvalidCurrencyAmount);
            } else if total > u64::MAX - max {
                err = Some(DexError::Overflow);
            } else {
                pools.set(id, PoolState { quote_reserve: max, liquidity_supply: max });
                minted.push(max);
                costs.push(max);
                total = total + max;
            }
            match err {
                Some(e) => {
                    proof {
                        assert(step(s, i as int) == Err::<Basket, DexError>(e));
                        lemma_run_fails(init, (i + 1) as nat, n as nat, step, e);
                    }
                    return Err(e);
                },
                None => {
                    assert(step(s, i as int) == Ok::<Basket, DexError>(
                        (pools@, minted@, costs@, total as int),
                    ));
                },
            }
            i = i + 1;
        }
        match staged.apply_batch(Movement::Credit(*to), &token_ids, &minted) {
            Ok(_) => {},
            Err(e) => {
                return Err(DexError::Ledger(e));
            },
        }
        match staged.apply(Movement::Transfer(*sender, ex.vault), qt, total) {
            Ok(_) => {},
            Err(e) => {
                return Err(DexError::Ledger(e));
            },
        }
        self.ledger.commit(staged);
        self.pools = pools;
        Ok(costs)
    }

    /// Removes liquidity from exchange `exchange_id`: `liquidities[i]` shares
    /// of `token_ids[i]` are burned from `sender` for their proportional part
    /// of the pool, which must reach `min_currencys[i]` quote and
    /// `min_tokens[i]` tokens. The quote and the tokens move from the vault
    /// to `to`. Returns the quote and the tokens paid per element. All or
    /// nothing.
    pub fn remove_liquidity(
        &mut self,
        sender: &AccountId,
        exchange_id: ExchangeId,
        to: &AccountId,
        token_ids: Vec<TokenId>,
        liquidities: Vec<TokenBalance>,
        min_currencys: Vec<TokenBalance>,
        min_tokens: Vec<TokenBalance>,
    ) -> (r: Result<(Vec<TokenBalance>, Vec<TokenBalance>), DexError>)
        requires
            old(self).wf(),
        ensures
            final(self).wf(),
            final(self).same_registries(&*old(self)),
            match exchange_quote(old(self).exchanges(), old(self).currencies(), exchange_id) {
                Err(e) => r == Err::<(Vec<TokenBalance>, Vec<TokenBalance>), DexError>(e)
                    && *final(self) == *old(self),
                Ok((ex, qt)) => match r {
                    Ok(v) => remove_liquidity_outcome(
                        old(self).books()@,
                        old(self).pools(),
                        ex,
                        qt,
                        *sender,
                        *to,
                        token_ids@,
                        liquidities@,
                        min_currencys@,
                        min_tokens@,
                    ) == Ok::<(Balances, Pools, Seq<u64>, Seq<u64>), DexError>(
                        (final(self).books()@, final(self).pools(), v.0@, v.1@),
                    ),
                    Err(e) => remove_liquidity_outcome(
                        old(self).books()@,
                        old(self).pools(),
                        ex,
                        qt,
                        *sender,
                        *to,
                        token_ids@,
                        liquidities@,
                        min_currencys@,
                        min_tokens@,
                    ) == Err::<(Balances, Pools, Seq<u64>, Seq<u64>), DexError>(e) && *final(self)
                        == *old(self),
                },
            },
    {
        let (ex, qt) = match self.exchange_and_quote(exchange_id) {
            Ok(x) => x,
            Err(e) => {
                return Err(e);
            },
        };
        if token_ids.len() != liquidities.len() || token_ids.len() != min_currencys.len()
            || token_ids.len() != min_tokens.len() {
            return Err(DexError::ArrayLengthMismatch);
        }
        let n = token_ids.len();
        let mut staged = self.ledger.stage();
        let reserves = get_token_reserves(&staged, ex.vault, &token_ids);
        let mut pools = self.pools.copy();
        let mut quotes: Vec<TokenBalance> = Vec::new();
        let mut tokens: Vec<TokenBalance> = Vec::new();
        let mut total: u64 = 0;
        let ghost step = withdraw_step(
            reserves@,
            token_ids@,
            liquidities@,
            min_currencys@,
            min_tokens@,
        );
        let ghost init = start(self.pools@);
        let mut i: usize = 0;
        while i < n
            invariant
                *self == *old(self),
                self.wf(),
                staged.wf(),
                staged@ == self.books()@,
                n == token_ids@.len(),
                n == liquidities@.len(),
                n == min_currencys@.len(),
                n == min_tokens@.len(),
                n == reserves@.len(),
                i <= n,
                tokens@.len() == i,
                pools.wf(),
                step == withdraw_step(
                    reserves@,
                    token_ids@,
                    liquidities@,
                    min_currencys@,
                    min_tokens@,
                ),
                init == start(self.pools@),
                exchange_quote(self.exchanges(), self.currencies(), exchange_id) == Ok::<
                    (ExchangeInfo, TokenId),
                    DexError,
                >((ex, qt)),
                reserves@ == reserves_of(self.books()@, ex.vault, token_ids@),
                run(init, i as nat, step) == Ok::<Basket, DexError>(
                    (pools@, quotes@, tokens@, total as int),
                ),
            decreases n - i,
        {
            let id = token_ids[i];
            let x = liquidities[i];
            let pool = pools.get(id);
            let l = pool.liquidity_supply;
            let cr = pool.quote_reserve;
            let r = reserves[i];
            let ghost s = (pools@, quotes@, tokens@, total as int);
            let mut err: Option<DexError> = None;
            if l == 0 || x > l {
                err = Some(DexError::InsufficientLiquidity);
            } else {
                assert((x as u128) * (cr as u128) <= u128::MAX && (x as u128) * (r as u128)
                    <= u128::MAX) by (nonlinear_arith)
                    requires
                        x <= u64::MAX,
                        cr <= u64::MAX,
                        r <= u64::MAX,
                ;
                let q: u128 = x as u128 * cr as u128 / l as u128;
                let t: u128 = x as u128 * r as u128 / l as u128;
                assert(q <= cr && t <= r) by (nonlinear_arith)
                    requires
                        q == (x as int) * (cr as int) / (l as int),
                        t == (x as int) * (r as int) / (l as int),
                        x <= l,
                        l > 0,
                ;
                if q < min_currencys[i] as u128 {
                    err = Some(DexError::InsufficientCurrencyAmount);
                } else if t < min_tokens[i] as u128 {
                    err = Some(DexError::InsufficientTokenAmount);
                } else if total as u128 + q > u64::MAX as u128 {
                    err = Some(DexError::Overflow);
                } else {
                    pools.set(
                        id,
                        PoolState { quote_reserve: cr - q as u64, liquidity_supply: l - x },
                    );
                    quotes.push(q as u64);
                    tokens.push(t as u64);
                    total = total + q as u64;
                }
            }
            match err {
                Some(e) => {
                    proof {
                        assert(step(s, i as int) == Err::<Basket, DexError>(e));
                        lemma_run_fails(init, (i + 1) as nat, n as nat, step, e);
                    }
                    return Err(e);
                },
                None => {
                    assert(step(s, i as int) == Ok::<Basket, DexError>(
                        (pools@, quotes@, tokens@, total as int),
                    ));
                },
            }
            i = i + 1;
        }
        match staged.apply_batch(Movement::Debit(*sender), &token_ids, &liquidities) {
            Ok(_) => {},
            Err(e) => {
                return Err(DexError::Ledger(e));
            },
        }
        match staged.apply(Movement::Transfer(ex.vault, *to), qt, total) {
            Ok(_) => {},
            Err(e) => {
                return Err(DexError::Ledger(e));
            },
        }
        if ex.vault != *to {
            match staged.apply_batch(Movement::Transfer(ex.vault, *to), &token_ids, &tokens) {
                Ok(_) => {},
                Err(e) => {
                    return Err(DexError::Ledger(e));
                },
            }
        }
        self.ledger.commit(staged);
        self.pools = pools;
        Ok((quotes, tokens))
    }
}

/// Liquidity round trip: opening an empty pool with `q` quote and `t`
/// tokens, then at once redeeming all `q` shares minted, pays back exactly
/// `q` quote and `t` tokens and leaves the balances and the pools as they
/// were, so no share remains outstanding and the caller holds none of them.
pub proof fn lemma_liquidity_round_trip(
    b: Balances,
    p: Pools,
    ex: ExchangeInfo,
    qt: TokenId,
    caller: AccountId,
    id: TokenId,
    t: u64,
    q: u64,
)
    requires
        forall|k: (TokenId, AccountId)| #[trigger] b.dom().contains(k),
        forall|k: TokenId| #[trigger] p.dom().contains(k),
        p[id] == empty_pool(),
        b[(id, ex.vault)] == 0,
        caller != ex.vault,
        add_liquidity_outcome(b, p, ex, qt, caller, caller, seq![id], seq![t], seq![q]) is Ok,
    ensures
        ({
            let (b1, p1, costs) = add_liquidity_outcome(
                b,
                p,
                ex,
                qt,
                caller,
                caller,
                seq![id],
                seq![t],
                seq![q],
            )->Ok_0;
            &&& costs == seq![q]
            &&& p1[id] == PoolState { quote_reserve: q, liquidity_supply: q }
            &&& b1[(id, caller)] == b[(id, caller)] - t + q
            &&& remove_liquidity_outcome(
                b1,
                p1,
                ex,
                qt,
                caller,
                caller,
                seq![id],
                seq![q],
                seq![0u64],
                seq![0u64],
            ) == Ok::<(Balances, Pools, Seq<u64>, Seq<u64>), DexError>((b, p, seq![q], seq![t]))
        }),
{
    let v = ex.vault;
    let ids = seq![id];
    assert(ids.drop_last() =~= Seq::<TokenId>::empty());
    assert(seq![t].drop_last() =~= Seq::<u64>::empty());
    assert(seq![q].drop_last() =~= Seq::<u64>::empty());
    assert(seq![0u64].drop_last() =~= Seq::<u64>::empty());
    // Adding: the tokens arrive in the vault.
    let m = Movement::Transfer(caller, v);
    assert(applied_each(b, m, ids.drop_last(), seq![t].drop_last()) == Ok::<
        Balances,
        LedgerError,
    >(b));
    assert(applied_each(b, m, ids, seq![t]) == crate::ledger::applied(b, m, id, t));
    let b1 = ledger_step(batch_transfer_outcome(b, caller, v, ids, seq![t]))->Ok_0;
    assert(b1 == b.insert((id, caller), (b[(id, caller)] - t) as u64).insert(
        (id, v),
        t,
    ));
    let res = reserves_of(b1, v, ids);
    assert(res =~= seq![t]);
    let step = deposit_step(res, ids, seq![t], seq![q], qt);
    let s0 = start(p);
    assert(run(s0, 0, step) == Ok::<Basket, DexError>(s0));
    assert(run(s0, 1, step) == step(s0, 0));
    let s1 = run(s0, 1, step)->Ok_0;
    assert(s1.1 =~= seq![q]);
    assert(s1.2 =~= seq![q]);
    assert(s1.3 == q);
    let p1 = s1.0;
    assert(p1 == p.insert(id, PoolState { quote_reserve: q, liquidity_supply: q }));
    // Adding: the shares are minted to the caller, the quote paid in.
    assert(applied_each(b1, Movement::Credit(caller), ids.drop_last(), s1.1.drop_last()) == Ok::<
        Balances,
        LedgerError,
    >(b1));
    assert(applied_each(b1, Movement::Credit(caller), ids, s1.1) == crate::ledger::applied(
        b1,
        Movement::Credit(caller),
        id,
        q,
    ));
    let b2 = ledger_step(batch_outcome(b1, Movement::Credit(caller), ids, s1.1))->Ok_0;
    let b3 = ledger_step(moved(b2, caller, v, qt, q))->Ok_0;
    assert(b3[(id, caller)] == b[(id, caller)] - t + q);
    assert(b3[(id, v)] == t);
    // Removing.
    let res2 = reserves_of(b3, v, ids);
    assert(res2 =~= seq![t]);
    let wstep = withdraw_step(res2, ids, seq![q], seq![0u64], seq![0u64]);
    let w0 = start(p1);
    assert(run(w0, 0, wstep) == Ok::<Basket, DexError>(w0));
    assert(run(w0, 1, wstep) == wstep(w0, 0));
    assert(q * q / q as int == q) by (nonlinear_arith)
        requires
            q > 0,
    ;
    assert(q * t / q as int == t) by (nonlinear_arith)
        requires
            q > 0,
    ;
    let w1 = run(w0, 1, wstep)->Ok_0;
    assert(w1.1 =~= seq![q]);
    assert(w1.2 =~= seq![t]);
    assert(w1.3 == q);
    assert(w1.0 =~= p);
    assert(applied_each(b3, Movement::Debit(caller), ids.drop_last(), seq![q].drop_last()) == Ok::<
        Balances,
        LedgerError,
    >(b3));
    assert(applied_each(b3, Movement::Debit(caller), ids, seq![q]) == crate::ledger::applied(
        b3,
        Movement::Debit(caller),
        id,
        q,
    ));
    let b4 = ledger_step(batch_outcome(b3, Movement::Debit(caller), ids, seq![q]))->Ok_0;
    let b5 = ledger_step(moved(b4, v, caller, qt, q))->Ok_0;
    assert(applied_each(b5, Movement::Transfer(v, caller), ids.drop_last(), w1.2.drop_last())
        == Ok::<Balances, LedgerError>(b5));
    assert(applied_each(b5, Movement::Transfer(v, caller), ids, w1.2) == crate::ledger::applied(
        b5,
        Movement::Transfer(v, caller),
        id,
        t,
    ));
    let b6 = ledger_step(batch_transfer_outcome(b5, v, caller, ids, w1.2))->Ok_0;
    assert(b6 =~= b);
}

} // verus!
