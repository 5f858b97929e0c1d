//! The multi-asset ledger: token classes and per-account balances, with
//! checked single and batch mint, burn and transfer.
use vstd::prelude::*;

use crate::types::{AccountId, TokenBalance, TokenId};

verus! {

/// Balances as a total function: an entry that was never written reads as zero.
pub type Balances = Map<(TokenId, AccountId), u64>;

/// Why a ledger operation refused to run. A refused operation changes nothing.
#[derive(Clone, Copy, Debug, PartialEq, Eq, Structural)]
pub enum LedgerError {
    /// An addition would leave the range of a balance.
    Overflow,
    /// An account holds less than it is asked to give up.
    InsufficientBalance,
    /// Two arrays that go together have different lengths.
    ArrayLengthMismatch,
    /// No more token identifiers can be handed out.
    NoIdAvailable,
}

/// How one element of a (batch) call moves balances.
#[derive(Clone, Copy, Debug, PartialEq, Eq, Structural)]
pub enum Movement {
    /// New units for the account.
    Credit(AccountId),
    /// Units taken out of circulation from the account.
    Debit(AccountId),
    /// Units moving from the first account to the second.
    Transfer(AccountId, AccountId),
}

/// Adding `amount` to the balance of `who`, unless the sum leaves the range.
pub open spec fn credited(m: Balances, id: TokenId, who: AccountId, amount: u64) -> Result<
    Balances,
    LedgerError,
> {
    if m[(id, who)] + amount <= u64::MAX {
        Ok(m.insert((id, who), (m[(id, who)] + amount) as u64))
    } else {
        Err(LedgerError::Overflow)
    }
}

/// Taking `amount` from the balance of `who`, unless it holds less.
pub open spec fn debited(m: Balances, id: TokenId, who: AccountId, amount: u64) -> Result<
    Balances,
    LedgerError,
> {
    if m[(id, who)] >= amount {
        Ok(m.insert((id, who), (m[(id, who)] - amount) as u64))
    } else {
        Err(LedgerError::InsufficientBalance)
    }
}

/// A transfer to oneself succeeds and changes nothing, whatever the amount.
pub open spec fn moved(m: Balances, from: AccountId, to: AccountId, id: TokenId, amount: u64) -> Result<
    Balances,
    LedgerError,
> {
    if from == to {
        Ok(m)
    } else {
        match debited(m, id, from, amount) {
            Ok(m2) => credited(m2, id, to, amount),
            Err(e) => Err(e),
        }
    }
}

/// One element of a call applied to the balances.
pub open spec fn applied(m: Balances, mv: Movement, id: TokenId, amount: u64) -> Result<
    Balances,
    LedgerError,
> {
    match mv {
        Movement::Credit(who) => credited(m, id, who, amount),
        Movement::Debit(who) => debited(m, id, who, amount),
        Movement::Transfer(from, to) => moved(m, from, to, id, amount),
    }
}

/// The elements applied in array order; the first failure is the result.
pub open spec fn applied_each(m: Balances, mv: Movement, ids: Seq<TokenId>, amounts: Seq<u64>) -> Result<
    Balances,
    LedgerError,
>
    decreases ids.len(),
{
    if ids.len() == 0 {
        Ok(m)
    } else {
        match applied_each(m, mv, ids.drop_last(), amounts.drop_last()) {
            Ok(m2) => applied(m2, mv, ids.last(), amounts[ids.len() - 1]),
            Err(e) => Err(e),
        }
    }
}

/// How much a movement adds to the units of token `x` in circulation.
pub open spec fn issued(mv: Movement, id: TokenId, amount: u64, x: TokenId) -> int {
    if id != x {
        0
    } else {
        match mv {
            Movement::Credit(_) => amount as int,
            Movement::Debit(_) => -(amount as int),
            Movement::Transfer(_, _) => 0,
        }
    }
}

/// Units of token `x` that a batch adds to circulation.
pub open spec fn issued_each(mv: Movement, ids: Seq<TokenId>, amounts: Seq<u64>, x: TokenId) -> int
    decreases ids.len(),
{
    if ids.len() == 0 {
        0
    } else {
        issued_each(mv, ids.drop_last(), amounts.drop_last(), x) + issued(
            mv,
            ids.last(),
            amounts[ids.len() - 1],
            x,
        )
    }
}

/// One stored balance.
#[derive(Clone, Copy, Debug)]
pub struct BalanceEntry {
    pub token: TokenId,
    pub owner: AccountId,
    pub amount: TokenBalance,
}

spec fn keys_unique(s: Seq<BalanceEntry>) -> bool {
    forall|i: int, j: int|
        0 <= i < j < s.len() ==> (s[i].token != s[j].token || s[i].owner != s[j].owner)
}

spec fn lookup(s: Seq<BalanceEntry>, id: TokenId, who: AccountId) -> u64
    decreases s.len(),
{
    if s.len() == 0 {
        0
    } else if s.last().token == id && s.last().owner == who {
        s.last().amount
    } else {
        lookup(s.drop_last(), id, who)
    }
}

spec fn supply_of(s: Seq<BalanceEntry>, id: TokenId) -> int
    decreases s.len(),
{
    if s.len() == 0 {
        0
    } else {
        supply_of(s.drop_last(), id) + if s.last().token == id {
            s.last().amount as int
        } else {
            0
        }
    }
}

proof fn lemma_lookup_at(s: Seq<BalanceEntry>, k: int)
    requires
        keys_unique(s),
        0 <= k < s.len(),
    ensures
        lookup(s, s[k].token, s[k].owner) == s[k].amount,
    decreases s.len(),
{
    if k < s.len() - 1 {
        assert(keys_unique(s.drop_last()));
        lemma_lookup_at(s.drop_last(), k);
        assert(s.drop_last()[k] == s[k]);
    }
}

proof fn lemma_lookup_absent(s: Seq<BalanceEntry>, id: TokenId, who: AccountId)
    requires
        forall|i: int| 0 <= i < s.len() ==> !(s[i].token == id && s[i].owner == who),
    ensures
        lookup(s, id, who) == 0,
    decreases s.len(),
{
    if s.len() > 0 {
        lemma_lookup_absent(s.drop_last(), id, who);
    }
}

proof fn lemma_lookup_update(
    s: Seq<BalanceEntry>,
    k: int,
    e: BalanceEntry,
    id: TokenId,
    who: AccountId,
)
    requires
        keys_unique(s),
        0 <= k < s.len(),
        e.token == s[k].token,
        e.owner == s[k].owner,
    ensures
        lookup(s.update(k, e), id, who) == if id == e.token && who == e.owner {
            e.amount
        } else {
            lookup(s, id, who)
        },
    decreases s.len(),
{
    let t = s.update(k, e);
    if k == s.len() - 1 {
        assert(t.drop_last() =~= s.drop_last());
    } else {
        assert(t.drop_last() =~= s.drop_last().update(k, e));
        assert(keys_unique(s.drop_last()));
        lemma_lookup_update(s.drop_last(), k, e, id, who);
        if id == e.token && who == e.owner {
            assert(s.last().token != id || s.last().owner != who);
        }
    }
}

proof fn lemma_supply_update(s: Seq<BalanceEntry>, k: int, e: BalanceEntry, x: TokenId)
    requires
        0 <= k < s.len(),
    ensures
        supply_of(s.update(k, e), x) == supply_of(s, x) - (if s[k].token == x {
            s[k].amount as int
        } else {
            0
        }) + (if e.token == x {
            e.amount as int
        } else {
            0
        }),
    decreases s.len(),
{
    let t = s.update(k, e);
    if k == s.len() - 1 {
        assert(t.drop_last() =~= s.drop_last());
    } else {
        assert(t.drop_last() =~= s.drop_last().update(k, e));
        lemma_supply_update(s.drop_last(), k, e, x);
    }
}

proof fn lemma_failure_persists(
    m: Balances,
    mv: Movement,
    ids: Seq<TokenId>,
    amounts: Seq<u64>,
    k: int,
    e: LedgerError,
)
    requires
        0 <= k <= ids.len(),
        ids.len() == amounts.len(),
        applied_each(m, mv, ids.take(k), amounts.take(k)) == Err::<Balances, LedgerError>(e),
    ensures
        applied_each(m, mv, ids, amounts) == Err::<Balances, LedgerError>(e),
    decreases ids.len() - k,
{
    if k == ids.len() {
        assert(ids.take(k) =~= ids);
        assert(amounts.take(k) =~= amounts);
    } else {
        assert(ids.take(k + 1).drop_last() =~= ids.take(k));
        assert(amounts.take(k + 1).drop_last() =~= amounts.take(k));
        lemma_failure_persists(m, mv, ids, amounts, k + 1, e);
    }
}

/// The balance table: one entry per (token, account) pair that was ever written.
pub struct BalanceTable {
    entries: Vec<BalanceEntry>,
}

impl View for BalanceTable {
    type V = Balances;

    closed spec fn view(&self) -> Balances {
        Map::new(
            |k: (TokenId, AccountId)| true,
            |k: (TokenId, AccountId)| lookup(self.entries@, k.0, k.1),
        )
    }
}

impl BalanceTable {
    /// At most one entry per (token, account) pair.
    pub closed spec fn wf(&self) -> bool {
        keys_unique(self.entries@)
    }

    /// The units of token `id` held over all accounts.
    pub closed spec fn supply(&self, id: TokenId) -> int {
        supply_of(self.entries@, id)
    }

    /// A table with every balance zero.
    pub fn new() -> (r: BalanceTable)
        ensures
            r.wf(),
            forall|k: (TokenId, AccountId)| #[trigger] r@[k] == 0,
            forall|x: TokenId| #[trigger] r.supply(x) == 0,
    {
        BalanceTable { entries: Vec::new() }
    }

    /// An independent copy of the table.
    pub fn copy(&self) -> (r: BalanceTable)
        ensures
            r@ == self@,
            r.wf() == self.wf(),
            forall|x: TokenId| #[trigger] r.supply(x) == self.supply(x),
    {
        let mut entries: Vec<BalanceEntry> = Vec::new();
        let mut i: usize = 0;
        while i < self.entries.len()
            invariant
                i <= self.entries@.len(),
                entries@ == self.entries@.take(i as int),
            decreases self.entries@.len() - i,
        {
            entries.push(self.entries[i]);
            i = i + 1;
            assert(entries@ =~= self.entries@.take(i as int));
        }
        assert(entries@ =~= self.entries@);
        let r = BalanceTable { entries };
        assert(r@ =~= self@);
        r
    }

    fn find(&self, id: TokenId, who: AccountId) -> (r: Option<usize>)
        ensures
            match r {
                Some(k) => k < self.entries@.len() && self.entries@[k as int].token == id
                    && self.entries@[k as int].owner == who,
                None => forall|i: int|
                    0 <= i < self.entries@.len() ==> !(self.entries@[i].token == id
                        && self.entries@[i].owner == who),
            },
    {
        let mut i: usize = 0;
        while i < self.entries.len()
            invariant
                i <= self.entries@.len(),
                forall|j: int|
                    0 <= j < i ==> !(self.entries@[j].token == id && self.entries@[j].owner
                        == who),
            decreases self.entries@.len() - i,
        {
            let e = self.entries[i];
            if e.token == id && e.owner == who {
                return Some(i);
            }
            i = i + 1;
        }
        None
    }

    /// The balance of `who` in token `id`; zero where nothing was written.
    pub fn get(&self, id: TokenId, who: AccountId) -> (r: TokenBalance)
        requires
            self.wf(),
        ensures
            r == self@[(id, who)],
    {
        match self.find(id, who) {
            Some(k) => {
                proof {
                    lemma_lookup_at(self.entries@, k as int);
                }
                self.entries[k].amount
            },
            None => {
                proof {
                    lemma_lookup_absent(self.entries@, id, who);
                }
                0
            },
        }
    }

    fn set(&mut self, id: TokenId, who: AccountId, amount: TokenBalance)
        requires
            old(self).wf(),
        ensures
            final(self).wf(),
            final(self)@ == old(self)@.insert((id, who), amount),
            forall|x: TokenId| #[trigger]
                final(self).supply(x) == old(self).supply(x) + if x == id {
                    amount - old(self)@[(id, who)]
                } else {
                    0
                },
    {
        let ghost s0 = self.entries@;
        let ghost v0 = self@;
        let e = BalanceEntry { token: id, owner: who, amount };
        match self.find(id, who) {
            Some(k) => {
                self.entries.set(k, e);
                proof {
                    lemma_lookup_at(s0, k as int);
                    assert forall|t: TokenId, w: AccountId|
                        lookup(self.entries@, t, w) == if t == id && w == who {
                            amount
                        } else {
                            lookup(s0, t, w)
                        } by {
                        lemma_lookup_update(s0, k as int, e, t, w);
                    }
                    assert(self@ =~= v0.insert((id, who), amount));
                    assert forall|x: TokenId|
                        #[trigger] supply_of(self.entries@, x) == supply_of(s0, x) + if x == id {
                            amount - v0[(id, who)]
                        } else {
                            0
                        } by {
                        lemma_supply_update(s0, k as int, e, x);
                    }
                }
            },
            None => {
                self.entries.push(e);
                proof {
                    lemma_lookup_absent(s0, id, who);
                    assert(self.entries@.drop_last() =~= s0);
                    assert(self@ =~= v0.insert((id, who), amount));
                }
            },
        }
    }

    /// Applies one movement, or changes nothing and says why not.
    pub fn apply(&mut self, mv: Movement, id: TokenId, amount: TokenBalance) -> (r: Result<
        (),
        LedgerError,
    >)
        requires
            old(self).wf(),
        ensures
            final(self).wf(),
            match r {
                Ok(_) => applied(old(self)@, mv, id, amount) == Ok::<Balances, LedgerError>(
                    final(self)@,
                ) && forall|x: TokenId| #[trigger]
                    final(self).supply(x) == old(self).supply(x) + issued(mv, id, amount, x),
                Err(e) => applied(old(self)@, mv, id, amount) == Err::<Balances, LedgerError>(e)
                    && *final(self) == *old(self),
            },
    {
        match mv {
            Movement::Credit(who) => {
                let cur = self.get(id, who);
                if cur > u64::MAX - amount {
                    return Err(LedgerError::Overflow);
                }
                self.set(id, who, cur + amount);
                Ok(())
            },
            Movement::Debit(who) => {
                let cur = self.get(id, who);
                if cur < amount {
                    return Err(LedgerError::InsufficientBalance);
                }
                self.set(id, who, cur - amount);
                Ok(())
            },
            Movement::Transfer(from, to) => {
                if from == to {
                    return Ok(());
                }
                let cur_from = self.get(id, from);
                if cur_from < amount {
                    return Err(LedgerError::InsufficientBalance);
                }
                let cur_to = self.get(id, to);
                if cur_to > u64::MAX - amount {
                    return Err(LedgerError::Overflow);
                }
                let ghost v0 = self@;
                self.set(id, from, cur_from - amount);
                assert(self@[(id, to)] == cur_to);
                self.set(id, to, cur_to + amount);
                Ok(())
            },
        }
    }

    /// Applies the elements in array order, all of them or, at the first
    /// failure, none.
    pub fn apply_batch(&mut self, mv: Movement, ids: &Vec<TokenId>, amounts: &Vec<TokenBalance>) -> (r:
        Result<(), LedgerError>)
        requires
            old(self).wf(),
            ids@.len() == amounts@.len(),
        ensures
            final(self).wf(),
            match r {
                Ok(_) => applied_each(old(self)@, mv, ids@, amounts@) == Ok::<
                    Balances,
                    LedgerError,
                >(final(self)@) && forall|x: TokenId| #[trigger]
                    final(self).supply(x) == old(self).supply(x) + issued_each(
                        mv,
                        ids@,
                        amounts@,
                        x,
                    ),
                Err(e) => applied_each(old(self)@, mv, ids@, amounts@) == Err::<
                    Balances,
                    LedgerError,
                >(e) && *final(self) == *old(self),
            },
    {
        let mut staged = self.copy();
        let mut i: usize = 0;
        while i < ids.len()
            invariant
                i <= ids@.len(),
                ids@.len() == amounts@.len(),
                staged.wf(),
                self.wf(),
                applied_each(self@, mv, ids@.take(i as int), amounts@.take(i as int)) == Ok::<
                    Balances,
                    LedgerError,
                >(staged@),
                forall|x: TokenId| #[trigger]
                    staged.supply(x) == self.supply(x) + issued_each(
                        mv,
                        ids@.take(i as int),
                        amounts@.take(i as int),
                        x,
                    ),
            decreases ids@.len() - i,
        {
            proof {
                assert(ids@.take(i + 1).drop_last() =~= ids@.take(i as int));
                assert(amounts@.take(i + 1).drop_last() =~= amounts@.take(i as int));
            }
            match staged.apply(mv, ids[i], amounts[i]) {
                Ok(_) => {},
                Err(e) => {
                    proof {
                        lemma_failure_persists(self@, mv, ids@, amounts@, i + 1, e);
                    }
                    return Err(e);
                },
            }
            i = i + 1;
        }
        proof {
            assert(ids@.take(i as int) =~= ids@);
            assert(amounts@.take(i as int) =~= amounts@);
        }
        *self = staged;
        Ok(())
    }
}


/// Every element applied, after the lengths were found to match.
pub open spec fn batch_outcome(m: Balances, mv: Movement, ids: Seq<TokenId>, amounts: Seq<u64>) -> Result<
    Balances,
    LedgerError,
> {
    if ids.len() != amounts.len() {
        Err(LedgerError::ArrayLengthMismatch)
    } else {
        applied_each(m, mv, ids, amounts)
    }
}

/// A batch transfer to oneself succeeds and changes nothing.
pub open spec fn batch_transfer_outcome(
    m: Balances,
    from: AccountId,
    to: AccountId,
    ids: Seq<TokenId>,
    amounts: Seq<u64>,
) -> Result<Balances, LedgerError> {
    if from == to {
        Ok(m)
    } else {
        batch_outcome(m, Movement::Transfer(from, to), ids, amounts)
    }
}

/// A token class: who created it, whether its units are distinct items, and
/// where its metadata lives.
pub struct TokenClass {
    pub creator: AccountId,
    pub is_nf: bool,
    pub uri: Vec<u8>,
}

fn copy_bytes(b: &Vec<u8>) -> (r: Vec<u8>)
    ensures
        r@ == b@,
{
    let mut r: Vec<u8> = Vec::new();
    let mut i: usize = 0;
    while i < b.len()
        invariant
            i <= b@.len(),
            r@ == b@.take(i as int),
        decreases b@.len() - i,
    {
        r.push(b[i]);
        i = i + 1;
        assert(r@ =~= b@.take(i as int));
    }
    assert(b@.take(i as int) =~= b@);
    r
}

/// The ledger module: the registry of token classes and the balance table.
pub struct Module {
    tokens: Vec<TokenClass>,
    next_token_id: TokenId,
    balances: BalanceTable,
}

impl View for Module {
    type V = Balances;

    closed spec fn view(&self) -> Balances {
        self.balances@
    }
}

impl Module {
    pub closed spec fn wf(&self) -> bool {
        &&& self.balances.wf()
        &&& self.tokens@.len() == self.next_token_id
    }

    /// The sum of the balances of token `id` over all accounts.
    pub closed spec fn supply(&self, id: TokenId) -> int {
        self.balances.supply(id)
    }

    /// The registered token classes; a class's identifier is its index.
    pub closed spec fn classes(&self) -> Seq<(AccountId, bool, Seq<u8>)> {
        self.tokens@.map_values(|t: TokenClass| (t.creator, t.is_nf, t.uri@))
    }

    /// A ledger with no token classes and no balances.
    pub fn new() -> (r: Module)
        ensures
            r.wf(),
            r.classes().len() == 0,
            forall|k: (TokenId, AccountId)| #[trigger] r@[k] == 0,
            forall|x: TokenId| #[trigger] r.supply(x) == 0,
    {
        let r = Module { tokens: Vec::new(), next_token_id: 0, balances: BalanceTable::new() };
        assert(r.classes() =~= Seq::<(AccountId, bool, Seq<u8>)>::empty());
        r
    }

    /// Registers a token class and returns its fresh identifier, the number
    /// of classes registered before it.
    pub fn create_token(&mut self, who: &AccountId, is_nf: bool, uri: &Vec<u8>) -> (r: Result<
        TokenId,
        LedgerError,
    >)
        requires
            old(self).wf(),
        ensures
            final(self).wf(),
            final(self)@ == old(self)@,
            forall|x: TokenId| #[trigger] final(self).supply(x) == old(self).supply(x),
            match r {
                Ok(id) => id == old(self).classes().len() && final(self).classes() == old(
                    self,
                ).classes().push((*who, is_nf, uri@)),
                Err(e) => e == LedgerError::NoIdAvailable && old(self).classes().len()
                    == u64::MAX && *final(self) == *old(self),
            },
    {
        if self.next_token_id == u64::MAX {
            return Err(LedgerError::NoIdAvailable);
        }
        let id = self.next_token_id;
        let class = TokenClass { creator: *who, is_nf, uri: copy_bytes(uri) };
        let ghost c0 = self.classes();
        self.tokens.push(class);
        self.next_token_id = id + 1;
        assert(self.classes() =~= c0.push((*who, is_nf, uri@)));
        Ok(id)
    }

    /// The class registered under `id`, if any.
    pub fn token(&self, id: TokenId) -> (r: Option<&TokenClass>)
        requires
            self.wf(),
        ensures
            match r {
                Some(t) => id < self.classes().len() && self.classes()[id as int] == (
                    t.creator,
                    t.is_nf,
                    t.uri@,
                ),
                None => id >= self.classes().len(),
            },
    {
        let n = self.tokens.len();
        if id < self.next_token_id {
            let k = id as usize;
            let t = &self.tokens[k];
            assert(self.classes()[k as int] == (t.creator, t.is_nf, t.uri@));
            Some(t)
        } else {
            None
        }
    }

    /// Adds `amount` to the balance of `to`; fails with `Overflow`, changing
    /// nothing, where the sum leaves the range of a balance.
    pub fn mint(&mut self, to: &AccountId, id: &TokenId, amount: TokenBalance) -> (r: Result<
        (),
        LedgerError,
    >)
        requires
            old(self).wf(),
        ensures
            final(self).wf(),
            final(self).classes() == old(self).classes(),
            match r {
                Ok(_) => credited(old(self)@, *id, *to, amount) == Ok::<Balances, LedgerError>(
                    final(self)@,
                ) && forall|x: TokenId| #[trigger]
                    final(self).supply(x) == old(self).supply(x) + issued(
                        Movement::Credit(*to),
                        *id,
                        amount,
                        x,
                    ),
                Err(e) => credited(old(self)@, *id, *to, amount) == Err::<Balances, LedgerError>(
                    e,
                ) && *final(self) == *old(self),
            },
    {
        self.balances.apply(Movement::Credit(*to), *id, amount)
    }

    /// Takes `amount` out of the balance of `from`; fails with
    /// `InsufficientBalance`, changing nothing, where it holds less.
    pub fn burn(&mut self, from: &AccountId, id: &TokenId, amount: TokenBalance) -> (r: Result<
        (),
        LedgerError,
    >)
        requires
            old(self).wf(),
        ensures
            final(self).wf(),
            final(self).classes() == old(self).classes(),
            match r {
                Ok(_) => debited(old(self)@, *id, *from, amount) == Ok::<Balances, LedgerError>(
                    final(self)@,
                ) && forall|x: TokenId| #[trigger]
                    final(self).supply(x) == old(self).supply(x) + issued(
                        Movement::Debit(*from),
                        *id,
                        amount,
                        x,
                    ),
                Err(e) => debited(old(self)@, *id, *from, amount) == Err::<Balances, LedgerError>(
                    e,
                ) && *final(self) == *old(self),
            },
    {
        self.balances.apply(Movement::Debit(*from), *id, amount)
    }

    /// Moves `amount` from `from` to `to`. A transfer to oneself succeeds and
    /// changes nothing; otherwise a shortfall or an overflow fails the call
    /// and changes nothing.
    pub fn transfer_from(
        &mut self,
        from: &AccountId,
        to: &AccountId,
        id: &TokenId,
        amount: TokenBalance,
    ) -> (r: Result<(), LedgerError>)
        requires
            old(self).wf(),
        ensures
            final(self).wf(),
            final(self).classes() == old(self).classes(),
            *from == *to ==> r is Ok && *final(self) == *old(self),
            match r {
                Ok(_) => moved(old(self)@, *from, *to, *id, amount) == Ok::<Balances, LedgerError>(
                    final(self)@,
                ) && forall|x: TokenId| #[trigger] final(self).supply(x) == old(self).supply(x),
                Err(e) => moved(old(self)@, *from, *to, *id, amount) == Err::<
                    Balances,
                    LedgerError,
                >(e) && *final(self) == *old(self),
            },
    {
        if *from == *to {
            return Ok(());
        }
        self.balances.apply(Movement::Transfer(*from, *to), *id, amount)
    }

    /// Mints each `amounts[i]` of `ids[i]` to `to`, all or none.
    pub fn batch_mint(&mut self, to: &AccountId, ids: &Vec<TokenId>, amounts: Vec<TokenBalance>) -> (r:
        Result<(), LedgerError>)
        requires
            old(self).wf(),
        ensures
            final(self).wf(),
            final(self).classes() == old(self).classes(),
            match r {
                Ok(_) => batch_outcome(old(self)@, Movement::Credit(*to), ids@, amounts@) == Ok::<
                    Balances,
                    LedgerError,
                >(final(self)@) && forall|x: TokenId| #[trigger]
                    final(self).supply(x) == old(self).supply(x) + issued_each(
                        Movement::Credit(*to),
                        ids@,
                        amounts@,
                        x,
                    ),
                Err(e) => batch_outcome(old(self)@, Movement::Credit(*to), ids@, amounts@) == Err::<
                    Balances,
                    LedgerError,
                >(e) && *final(self) == *old(self),
            },
    {
        if ids.len() != amounts.len() {
            return Err(LedgerError::ArrayLengthMismatch);
        }
        self.balances.apply_batch(Movement::Credit(*to), ids, &amounts)
    }

    /// Burns each `amounts[i]` of `ids[i]` from `from`, all or none.
    pub fn batch_burn(&mut self, from: &AccountId, ids: &Vec<TokenId>, amounts: Vec<TokenBalance>) -> (r:
        Result<(), LedgerError>)
        requires
            old(self).wf(),
        ensures
            final(self).wf(),
            final(self).classes() == old(self).classes(),
            match r {
                Ok(_) => batch_outcome(old(self)@, Movement::Debit(*from), ids@, amounts@) == Ok::<
                    Balances,
                    LedgerError,
                >(final(self)@) && forall|x: TokenId| #[trigger]
                    final(self).supply(x) == old(self).supply(x) + issued_each(
                        Movement::Debit(*from),
                        ids@,
                        amounts@,
                        x,
                    ),
                Err(e) => batch_outcome(old(self)@, Movement::Debit(*from), ids@, amounts@) == Err::<
                    Balances,
                    LedgerError,
                >(e) && *final(self) == *old(self),
            },
    {
        if ids.len() != amounts.len() {
            return Err(LedgerError::ArrayLengthMismatch);
        }
        self.balances.apply_batch(Movement::Debit(*from), ids, &amounts)
    }

    /// Transfers each `amounts[i]` of `ids[i]` from `from` to `to`, all or
    /// none; a batch transfer to oneself succeeds and changes nothing.
    pub fn batch_transfer_from(
        &mut self,
        from: &AccountId,
        to: &AccountId,
        ids: &Vec<TokenId>,
        amounts: Vec<TokenBalance>,
    ) -> (r: Result<(), LedgerError>)
        requires
            old(self).wf(),
        ensures
            final(self).wf(),
            final(self).classes() == old(self).classes(),
            match r {
                Ok(_) => batch_transfer_outcome(old(self)@, *from, *to, ids@, amounts@) == Ok::<
                    Balances,
                    LedgerError,
                >(final(self)@) && forall|x: TokenId| #[trigger]
                    final(self).supply(x) == old(self).supply(x),
                Err(e) => batch_transfer_outcome(old(self)@, *from, *to, ids@, amounts@) == Err::<
                    Balances,
                    LedgerError,
                >(e) && *final(self) == *old(self),
            },
    {
        if *from == *to {
            return Ok(());
        }
        if ids.len() != amounts.len() {
            return Err(LedgerError::ArrayLengthMismatch);
        }
        let r = self.balances.apply_batch(Movement::Transfer(*from, *to), ids, &amounts);
        proof {
            if r is Ok {
                assert forall|x: TokenId|
                    issued_each(Movement::Transfer(*from, *to), ids@, amounts@, x) == 0 by {
                    lemma_transfers_issue_nothing(*from, *to, ids@, amounts@, x);
                }
            }
        }
        r
    }

    /// A copy of the balance table, for staging a multi-step change.
    pub(crate) fn stage(&self) -> (r: BalanceTable)
        requires
            self.wf(),
        ensures
            r.wf(),
            r@ == self@,
            forall|x: TokenId| #[trigger] r.supply(x) == self.supply(x),
    {
        self.balances.copy()
    }

    /// Installs a staged balance table, keeping the classes.
    pub(crate) fn commit(&mut self, staged: BalanceTable)
        requires
            old(self).wf(),
            staged.wf(),
        ensures
            final(self).wf(),
            final(self)@ == staged@,
            final(self).classes() == old(self).classes(),
            forall|x: TokenId| #[trigger] final(self).supply(x) == staged.supply(x),
    {
        self.balances = staged;
    }

    /// The balance of `owner` in token `id`.
    pub fn balance_of(&self, owner: &AccountId, id: &TokenId) -> (r: TokenBalance)
        requires
            self.wf(),
        ensures
            r == self@[(*id, *owner)],
    {
        self.balances.get(*id, *owner)
    }

    /// The balance of `owners[i]` in `ids[i]`, for each `i`.
    pub fn balance_of_batch(&self, owners: &Vec<AccountId>, ids: &Vec<TokenId>) -> (r: Result<
        Vec<TokenBalance>,
        LedgerError,
    >)
        requires
            self.wf(),
        ensures
            match r {
                Ok(v) => owners@.len() == ids@.len() && v@.len() == ids@.len() && forall|i: int|
                    0 <= i < v@.len() ==> #[trigger] v@[i] == self@[(ids@[i], owners@[i])],
                Err(e) => e == LedgerError::ArrayLengthMismatch && owners@.len() != ids@.len(),
            },
    {
        if owners.len() != ids.len() {
            return Err(LedgerError::ArrayLengthMismatch);
        }
        let mut out: Vec<TokenBalance> = Vec::new();
        let mut i: usize = 0;
        while i < ids.len()
            invariant
                self.wf(),
                owners@.len() == ids@.len(),
                i <= ids@.len(),
                out@.len() == i,
                forall|j: int| 0 <= j < i ==> #[trigger] out@[j] == self@[(ids@[j], owners@[j])],
            decreases ids@.len() - i,
        {
            let b = self.balances.get(ids[i], owners[i]);
            out.push(b);
            i = i + 1;
        }
        Ok(out)
    }
}

proof fn lemma_transfers_issue_nothing(
    from: AccountId,
    to: AccountId,
    ids: Seq<TokenId>,
    amounts: Seq<u64>,
    x: TokenId,
)
    ensures
        issued_each(Movement::Transfer(from, to), ids, amounts, x) == 0,
    decreases ids.len(),
{
    if ids.len() > 0 {
        lemma_transfers_issue_nothing(from, to, ids.drop_last(), amounts.drop_last(), x);
    }
}

/// A mint, burn or transfer call: of one element, or of a batch.
pub enum LedgerCall {
    One(Movement, TokenId, u64),
    Batch(Movement, Seq<TokenId>, Seq<u64>),
}

/// Units of token `x` that a call adds to circulation.
pub open spec fn call_issued(call: LedgerCall, x: TokenId) -> int {
    match call {
        LedgerCall::One(mv, id, amount) => issued(mv, id, amount, x),
        LedgerCall::Batch(mv, ids, amounts) => issued_each(mv, ids, amounts, x),
    }
}

/// What a successful call does to a ledger, as the call's own contract
/// states it: the balances as `applied` or `applied_each` gives them, and
/// the units in circulation moved by what the call issued.
pub open spec fn call_succeeded(pre: Module, call: LedgerCall, post: Module) -> bool {
    &&& match call {
        LedgerCall::One(mv, id, amount) => applied(pre@, mv, id, amount) == Ok::<
            Balances,
            LedgerError,
        >(post@),
        LedgerCall::Batch(mv, ids, amounts) => applied_each(pre@, mv, ids, amounts) == Ok::<
            Balances,
            LedgerError,
        >(post@),
    }
    &&& forall|x: TokenId| #[trigger] post.supply(x) == pre.supply(x) + call_issued(call, x)
}

/// Units of token `x` minted minus units burned over a run of calls.
pub open spec fn net_issued(calls: Seq<LedgerCall>, x: TokenId) -> int
    decreases calls.len(),
{
    if calls.len() == 0 {
        0
    } else {
        net_issued(calls.drop_last(), x) + call_issued(calls.last(), x)
    }
}

/// No value is created or destroyed: over any run of successful mint, burn
/// and transfer calls, single or batch, the sum of all balances of a token
/// changes by exactly the units minted minus the units burned. From a new
/// ledger, whose sums are zero, the sum is therefore always minted minus
/// burned.
pub proof fn lemma_no_value_creation(
    states: Seq<Module>,
    calls: Seq<LedgerCall>,
    x: TokenId,
)
    requires
        states.len() == calls.len() + 1,
        forall|i: int|
            0 <= i < calls.len() ==> call_succeeded(
                #[trigger] states[i],
                calls[i],
                states[i + 1],
            ),
    ensures
        states.last().supply(x) == states[0].supply(x) + net_issued(calls, x),
    decreases calls.len(),
{
    if calls.len() > 0 {
        let n = calls.len() - 1;
        let s2 = states.drop_last();
        let c2 = calls.drop_last();
        assert forall|i: int| 0 <= i < c2.len() implies call_succeeded(
            #[trigger] s2[i],
            c2[i],
            s2[i + 1],
        ) by {
            assert(call_succeeded(states[i], calls[i], states[i + 1]));
        }
        lemma_no_value_creation(s2, c2, x);
        assert(call_succeeded(states[n], calls[n], states[n + 1]));
    }
}

} // verus!
