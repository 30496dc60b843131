use vstd::prelude::*;

use crate::authority::Authority;
use crate::error::TokenError;
use crate::registry::MintId;

verus! {

/// Identifies a token account: its position in the store.
#[derive(Clone, Copy, Debug, PartialEq, Eq, Structural)]
pub struct AccountId {
    pub index: usize,
}

/// The record of one token account: the mint it is bound to for its
/// lifetime, its balance and the authority that owns it.
#[derive(Clone, Copy, Debug, PartialEq, Eq, Structural)]
pub struct TokenAccount {
    pub mint: MintId,
    pub balance: u64,
    pub owner: Authority,
}

impl TokenAccount {
    /// This account with its balance replaced.
    pub open spec fn with_balance(self, balance: int) -> TokenAccount {
        TokenAccount { mint: self.mint, balance: balance as u64, owner: self.owner }
    }
}

/// The sum of the balances of the accounts bound to `mint`.
pub open spec fn mint_total(accounts: Seq<TokenAccount>, mint: MintId) -> int
    decreases accounts.len(),
{
    if accounts.len() == 0 {
        0
    } else {
        mint_total(accounts.drop_last(), mint) + if accounts.last().mint == mint {
            accounts.last().balance as int
        } else {
            0
        }
    }
}

/// What adjusting the balance of account `id` by `delta` gives: the new
/// records, or the error.
pub open spec fn balance_adjusted(accounts: Seq<TokenAccount>, id: AccountId, delta: int) -> Result<
    Seq<TokenAccount>,
    TokenError,
> {
    if id.index >= accounts.len() {
        Err(TokenError::NotFound)
    } else if accounts[id.index as int].balance + delta < 0 {
        Err(TokenError::InsufficientBalance)
    } else if accounts[id.index as int].balance + delta > u64::MAX {
        Err(TokenError::SupplyOverflow)
    } else {
        Ok(
            accounts.update(
                id.index as int,
                accounts[id.index as int].with_balance(accounts[id.index as int].balance + delta),
            ),
        )
    }
}

/// Appending an account adds its balance to the total of its mint only.
pub proof fn lemma_total_push(accounts: Seq<TokenAccount>, a: TokenAccount, mint: MintId)
    ensures
        mint_total(accounts.push(a), mint) == mint_total(accounts, mint) + if a.mint == mint {
            a.balance as int
        } else {
            0
        },
{
    assert(accounts.push(a).drop_last() =~= accounts);
}

/// Replacing one account by one of the same mint changes the total of that
/// mint by the change of balance, and no other total.
pub proof fn lemma_total_update(
    accounts: Seq<TokenAccount>,
    i: int,
    a: TokenAccount,
    mint: MintId,
)
    requires
        0 <= i < accounts.len(),
        a.mint == accounts[i].mint,
    ensures
        mint_total(accounts.update(i, a), mint) == mint_total(accounts, mint) + if a.mint == mint {
            a.balance - accounts[i].balance
        } else {
            0
        },
    decreases accounts.len(),
{
    let updated = accounts.update(i, a);
    if i == accounts.len() - 1 {
        assert(updated.drop_last() =~= accounts.drop_last());
    } else {
        assert(updated.drop_last() =~= accounts.drop_last().update(i, a));
        lemma_total_update(accounts.drop_last(), i, a, mint);
    }
}

/// Two distinct accounts of one mint hold together at most its total.
pub proof fn lemma_two_balances_bounded(accounts: Seq<TokenAccount>, i: int, j: int)
    requires
        0 <= i < accounts.len(),
        0 <= j < accounts.len(),
        i != j,
        accounts[i].mint == accounts[j].mint,
    ensures
        accounts[i].balance + accounts[j].balance <= mint_total(accounts, accounts[i].mint),
    decreases accounts.len(),
{
    let last = accounts.len() - 1;
    let rest = accounts.drop_last();
    if i == last {
        lemma_balance_bounded(rest, j);
    } else if j == last {
        lemma_balance_bounded(rest, i);
    } else {
        lemma_two_balances_bounded(rest, i, j);
    }
}

/// An account holds at most the total of its mint.
pub proof fn lemma_balance_bounded(accounts: Seq<TokenAccount>, i: int)
    requires
        0 <= i < accounts.len(),
    ensures
        accounts[i].balance <= mint_total(accounts, accounts[i].mint),
    decreases accounts.len(),
{
    lemma_total_nonnegative(accounts.drop_last(), accounts[i].mint);
    if i < accounts.len() - 1 {
        lemma_balance_bounded(accounts.drop_last(), i);
    }
}

/// A mint that no account is bound to has a total of zero.
pub proof fn lemma_total_of_unused_mint(accounts: Seq<TokenAccount>, mint: MintId)
    requires
        forall|i: int| 0 <= i < accounts.len() ==> (#[trigger] accounts[i]).mint != mint,
    ensures
        mint_total(accounts, mint) == 0,
    decreases accounts.len(),
{
    if accounts.len() > 0 {
        assert(accounts.last().mint != mint);
        let rest = accounts.drop_last();
        assert forall|i: int| 0 <= i < rest.len() implies (#[trigger] rest[i]).mint != mint by {
            assert(rest[i] == accounts[i]);
        }
        lemma_total_of_unused_mint(rest, mint);
    }
}

/// A total of balances is never negative.
pub proof fn lemma_total_nonnegative(accounts: Seq<TokenAccount>, mint: MintId)
    ensures
        mint_total(accounts, mint) >= 0,
    decreases accounts.len(),
{
    if accounts.len() > 0 {
        lemma_total_nonnegative(accounts.drop_last(), mint);
    }
}

/// The token accounts of a ledger, each identified by its position.
pub struct AccountStore {
    accounts: Vec<TokenAccount>,
}

impl View for AccountStore {
    type V = Seq<TokenAccount>;

    closed spec fn view(&self) -> Seq<TokenAccount> {
        self.accounts@
    }
}

impl AccountStore {
    /// A copy of this store.
    pub fn duplicate(&self) -> (r: AccountStore)
        ensures
            r@ == self@,
    {
        let mut copy: Vec<TokenAccount> = Vec::new();
        let mut i: usize = 0;
        while i < self.accounts.len()
            invariant
                i <= self.accounts@.len(),
                copy@ == self.accounts@.take(i as int),
            decreases self.accounts@.len() - i,
        {
            copy.push(self.accounts[i]);
            i = i + 1;
            assert(copy@ =~= self.accounts@.take(i as int));
        }
        assert(copy@ =~= self.accounts@);
        AccountStore { accounts: copy }
    }

    /// A store with no accounts.
    pub fn new() -> (r: AccountStore)
        ensures
            r@ == Seq::<TokenAccount>::empty(),
    {
        AccountStore { accounts: Vec::new() }
    }

    /// Opens a zero-balance account bound to `mint` and owned by `owner`.
    pub fn open_account(&mut self, mint: MintId, owner: Authority) -> (r: AccountId)
        ensures
            r.index == old(self)@.len(),
            final(self)@ == old(self)@.push(TokenAccount { mint, balance: 0, owner }),
    {
        let index = self.accounts.len();
        self.accounts.push(TokenAccount { mint, balance: 0, owner });
        AccountId { index }
    }

    /// The record of account `id`.
    pub fn get(&self, id: AccountId) -> (r: Result<TokenAccount, TokenError>)
        ensures
            id.index < self@.len() ==> r == Ok::<TokenAccount, TokenError>(self@[id.index as int]),
            id.index >= self@.len() ==> r == Err::<TokenAccount, TokenError>(TokenError::NotFound),
    {
        if id.index < self.accounts.len() {
            Ok(self.accounts[id.index])
        } else {
            Err(TokenError::NotFound)
        }
    }

    /// The balance of account `id`.
    pub fn get_balance(&self, id: AccountId) -> (r: Result<u64, TokenError>)
        ensures
            id.index < self@.len() ==> r == Ok::<u64, TokenError>(self@[id.index as int].balance),
            id.index >= self@.len() ==> r == Err::<u64, TokenError>(TokenError::NotFound),
    {
        if id.index < self.accounts.len() {
            Ok(self.accounts[id.index].balance)
        } else {
            Err(TokenError::NotFound)
        }
    }

    /// Adds `delta` to the balance of account `id`; on an error nothing
    /// changes.
    pub fn adjust_balance(&mut self, id: AccountId, delta: i128) -> (r: Result<(), TokenError>)
        ensures
            match balance_adjusted(old(self)@, id, delta as int) {
                Ok(accounts) => r is Ok && final(self)@ == accounts,
                Err(e) => r == Err::<(), TokenError>(e) && final(self)@ == old(self)@,
            },
    {
        if id.index >= self.accounts.len() {
            return Err(TokenError::NotFound);
        }
        let a = self.accounts[id.index];
        if delta < 0 {
            if delta < -(a.balance as i128) {
                return Err(TokenError::InsufficientBalance);
            }
        } else if delta > (u64::MAX - a.balance) as i128 {
            return Err(TokenError::SupplyOverflow);
        }
        let balance = (a.balance as i128 + delta) as u64;
        self.accounts.set(id.index, TokenAccount { mint: a.mint, balance, owner: a.owner });
        Ok(())
    }
}

} // verus!
