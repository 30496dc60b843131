use vstd::prelude::*;

use crate::accounts::{mint_total, AccountId, AccountStore, TokenAccount, lemma_total_push};
use crate::authority::Authority;
use crate::error::TokenError;
use crate::registry::{Mint, MintId, MintRegistry};

verus! {

/// The state of a ledger: its mint records and its account records, each
/// identified by position.
pub struct LedgerView {
    pub mints: Seq<Mint>,
    pub accounts: Seq<TokenAccount>,
}

impl LedgerView {
    /// Every account is bound to a registered mint.
    pub open spec fn accounts_bound(self) -> bool {
        forall|i: int|
            0 <= i < self.accounts.len() ==> (#[trigger] self.accounts[i]).mint.index
                < self.mints.len()
    }

    /// For every mint, the balances of its accounts add up to its supply.
    pub open spec fn supply_conserved(self) -> bool {
        forall|m: MintId|
            m.index < self.mints.len() ==> #[trigger] mint_total(self.accounts, m)
                == self.mints[m.index as int].supply
    }

    /// The invariant of a ledger between operations.
    pub open spec fn wf(self) -> bool {
        self.accounts_bound() && self.supply_conserved()
    }

    /// The balance of account `a`.
    pub open spec fn balance(self, a: AccountId) -> int {
        self.accounts[a.index as int].balance as int
    }

    /// The supply of mint `m`.
    pub open spec fn supply(self, m: MintId) -> int {
        self.mints[m.index as int].supply as int
    }
}

/// A ledger: the mint registry and the account store, updated together.
pub struct Ledger {
    pub(crate) registry: MintRegistry,
    pub(crate) store: AccountStore,
}

impl View for Ledger {
    type V = LedgerView;

    open(crate) spec fn view(&self) -> LedgerView {
        LedgerView { mints: self.registry@, accounts: self.store@ }
    }
}

impl Ledger {
    /// The invariant of a ledger between operations.
    pub open spec fn wf(&self) -> bool {
        self@.wf()
    }

    /// A ledger with no mints and no accounts.
    pub fn new() -> (r: Ledger)
        ensures
            r@.mints == Seq::<Mint>::empty(),
            r@.accounts == Seq::<TokenAccount>::empty(),
            r.wf(),
    {
        Ledger { registry: MintRegistry::new(), store: AccountStore::new() }
    }

    /// A copy of this ledger.
    pub fn duplicate(&self) -> (r: Ledger)
        ensures
            r@ == self@,
    {
        Ledger { registry: self.registry.duplicate(), store: self.store.duplicate() }
    }

    /// Opens a zero-balance account of mint `mint` owned by `owner`; fails
    /// with `NotFound` when no such mint is registered.
    pub fn open_account(&mut self, mint: MintId, owner: Authority) -> (r: Result<
        AccountId,
        TokenError,
    >)
        requires
            old(self).wf(),
        ensures
            final(self).wf(),
            final(self)@.mints == old(self)@.mints,
            mint.index < old(self)@.mints.len() ==> r == Ok::<AccountId, TokenError>(
                AccountId { index: old(self)@.accounts.len() as usize },
            ) && final(self)@.accounts == old(self)@.accounts.push(
                TokenAccount { mint, balance: 0, owner },
            ),
            mint.index >= old(self)@.mints.len() ==> r == Err::<AccountId, TokenError>(
                TokenError::NotFound,
            ) && final(self)@ == old(self)@,
    {
        match self.registry.get(mint) {
            Err(e) => Err(e),
            Ok(_) => {
                let ghost before = self@;
                let id = self.store.open_account(mint, owner);
                proof {
                    let a = TokenAccount { mint, balance: 0, owner };
                    assert forall|m: MintId| m.index < self@.mints.len() implies #[trigger] mint_total(
                        self@.accounts,
                        m,
                    ) == self@.mints[m.index as int].supply by {
                        lemma_total_push(before.accounts, a, m);
                        assert(mint_total(before.accounts, m) == before.mints[m.index as int].supply);
                    }
                    assert forall|i: int| 0 <= i < self@.accounts.len() implies (
                    #[trigger] self@.accounts[i]).mint.index < self@.mints.len() by {
                        if i < before.accounts.len() {
                            assert(self@.accounts[i] == before.accounts[i]);
                        }
                    }
                }
                Ok(id)
            },
        }
    }

    /// The record of mint `id`.
    pub fn get_mint(&self, id: MintId) -> (r: Result<Mint, TokenError>)
        ensures
            id.index < self@.mints.len() ==> r == Ok::<Mint, TokenError>(
                self@.mints[id.index as int],
            ),
            id.index >= self@.mints.len() ==> r == Err::<Mint, TokenError>(TokenError::NotFound),
    {
        self.registry.get(id)
    }

    /// The record of account `id`.
    pub fn get_account(&self, id: AccountId) -> (r: Result<TokenAccount, TokenError>)
        ensures
            id.index < self@.accounts.len() ==> r == Ok::<TokenAccount, TokenError>(
                self@.accounts[id.index as int],
            ),
            id.index >= self@.accounts.len() ==> r == Err::<TokenAccount, TokenError>(
                TokenError::NotFound,
            ),
    {
        self.store.get(id)
    }

    /// The balance of account `id`.
    pub fn get_balance(&self, id: AccountId) -> (r: Result<u64, TokenError>)
        ensures
            id.index < self@.accounts.len() ==> r == Ok::<u64, TokenError>(
                self@.accounts[id.index as int].balance,
            ),
            id.index >= self@.accounts.len() ==> r == Err::<u64, TokenError>(TokenError::NotFound),
    {
        self.store.get_balance(id)
    }
}

} // verus!
