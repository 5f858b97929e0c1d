//! Per-token pool state: the quote reserve that backs the token's pool and
//! the liquidity shares outstanding against it.
use vstd::prelude::*;

use crate::types::{TokenBalance, TokenId};

verus! {

/// The state of one token's pool. Both fields are zero for a pool that was
/// never funded.
#[derive(Clone, Copy, Debug, PartialEq, Eq, Structural)]
pub struct PoolState {
    pub quote_reserve: TokenBalance,
    pub liquidity_supply: TokenBalance,
}

pub open spec fn empty_pool() -> PoolState {
    PoolState { quote_reserve: 0, liquidity_supply: 0 }
}

/// Pools as a total function: a token that was never pooled reads as empty.
pub type Pools = Map<TokenId, PoolState>;

#[derive(Clone, Copy, Debug)]
struct PoolEntry {
    token: TokenId,
    pool: PoolState,
}

spec fn tokens_unique(s: Seq<PoolEntry>) -> bool {
    forall|i: int, j: int| 0 <= i < j < s.len() ==> s[i].token != s[j].token
}

spec fn lookup(s: Seq<PoolEntry>, id: TokenId) -> PoolState
    decreases s.len(),
{
    if s.len() == 0 {
        empty_pool()
    } else if s.last().token == id {
        s.last().pool
    } else {
        lookup(s.drop_last(), id)
    }
}

proof fn lemma_lookup_at(s: Seq<PoolEntry>, k: int)
    requires
        tokens_unique(s),
        0 <= k < s.len(),
    ensures
        lookup(s, s[k].token) == s[k].pool,
    decreases s.len(),
{
    if k < s.len() - 1 {
        assert(tokens_unique(s.drop_last()));
        lemma_lookup_at(s.drop_last(), k);
        assert(s.drop_last()[k] == s[k]);
    }
}

proof fn lemma_lookup_absent(s: Seq<PoolEntry>, id: TokenId)
    requires
        forall|i: int| 0 <= i < s.len() ==> s[i].token != id,
    ensures
        lookup(s, id) == empty_pool(),
    decreases s.len(),
{
    if s.len() > 0 {
        lemma_lookup_absent(s.drop_last(), id);
    }
}

proof fn lemma_lookup_update(s: Seq<PoolEntry>, k: int, e: PoolEntry, id: TokenId)
    requires
        tokens_unique(s),
        0 <= k < s.len(),
        e.token == s[k].token,
    ensures
        lookup(s.update(k, e), id) == if id == e.token {
            e.pool
        } else {
            lookup(s, id)
        },
    decreases s.len(),
{
    let t = s.update(k, e);
    if k == s.len() - 1 {
        assert(t.drop_last() =~= s.drop_last());
    } else {
        assert(t.drop_last() =~= s.drop_last().update(k, e));
        assert(tokens_unique(s.drop_last()));
        lemma_lookup_update(s.drop_last(), k, e, id);
    }
}

/// The pool table: one entry per token that was ever pooled.
pub struct PoolTable {
    entries: Vec<PoolEntry>,
}

impl View for PoolTable {
    type V = Pools;

    closed spec fn view(&self) -> Pools {
        Map::new(|k: TokenId| true, |k: TokenId| lookup(self.entries@, k))
    }
}

impl PoolTable {
    /// At most one entry per token.
    pub closed spec fn wf(&self) -> bool {
        tokens_unique(self.entries@)
    }

    pub fn new() -> (r: PoolTable)
        ensures
            r.wf(),
            forall|k: TokenId| #[trigger] r@[k] == empty_pool(),
    {
        PoolTable { entries: Vec::new() }
    }

    /// An independent copy of the table.
    pub fn copy(&self) -> (r: PoolTable)
        ensures
            r@ == self@,
            r.wf() == self.wf(),
    {
        let mut entries: Vec<PoolEntry> = Vec::new();
        let mut i: usize = 0;
        while i < self.entries.len()
            invariant
                i <= self.entries@.len(),
                entries@ == self.entries@.take(i as int),
            decreases self.entries@.len() - i,
        {
            entries.push(self.entries[i]);
            i = i + 1;
            assert(entries@ =~= self.entries@.take(i as int));
        }
        assert(entries@ =~= self.entries@);
        let r = PoolTable { entries };
        assert(r@ =~= self@);
        r
    }

    fn find(&self, id: TokenId) -> (r: Option<usize>)
        ensures
            match r {
                Some(k) => k < self.entries@.len() && self.entries@[k as int].token == id,
                None => forall|i: int| 0 <= i < self.entries@.len() ==> self.entries@[i].token != id,
            },
    {
        let mut i: usize = 0;
        while i < self.entries.len()
            invariant
                i <= self.entries@.len(),
                forall|j: int| 0 <= j < i ==> self.entries@[j].token != id,
            decreases self.entries@.len() - i,
        {
            if self.entries[i].token == id {
                return Some(i);
            }
            i = i + 1;
        }
        None
    }

    /// The pool of token `id`; empty where it was never written.
    pub fn get(&self, id: TokenId) -> (r: PoolState)
        requires
            self.wf(),
        ensures
            r == self@[id],
    {
        match self.find(id) {
            Some(k) => {
                proof {
                    lemma_lookup_at(self.entries@, k as int);
                }
                self.entries[k].pool
            },
            None => {
                proof {
                    lemma_lookup_absent(self.entries@, id);
                }
                PoolState { quote_reserve: 0, liquidity_supply: 0 }
            },
        }
    }

    /// Replaces the pool of token `id`.
    pub fn set(&mut self, id: TokenId, pool: PoolState)
        requires
            old(self).wf(),
        ensures
            final(self).wf(),
            final(self)@ == old(self)@.insert(id, pool),
    {
        let ghost s0 = self.entries@;
        let ghost v0 = self@;
        let e = PoolEntry { token: id, pool };
        match self.find(id) {
            Some(k) => {
                self.entries.set(k, e);
                proof {
                    assert forall|t: TokenId|
                        lookup(self.entries@, t) == if t == id {
                            pool
                        } else {
                            lookup(s0, t)
                        } by {
                        lemma_lookup_update(s0, k as int, e, t);
                    }
                    assert(self@ =~= v0.insert(id, pool));
                }
            },
            None => {
                self.entries.push(e);
                proof {
                    assert(self.entries@.drop_last() =~= s0);
                    assert(self@ =~= v0.insert(id, pool));
                }
            },
        }
    }
}

} // verus!
