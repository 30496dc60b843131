use vstd::prelude::*;

use crate::accounts::{
    lemma_balance_bounded, lemma_total_of_unused_mint, lemma_total_update, lemma_two_balances_bounded, mint_total, AccountId,
};
use crate::authority::{verify, Authority};
use crate::error::TokenError;
use crate::ledger::{Ledger, LedgerView};
use crate::registry::{Mint, MintId};

verus! {

/// The request to create a mint, made by its future mint authority.
#[derive(Clone, Copy, Debug, PartialEq, Eq, Structural)]
pub struct InitializeMint {
    pub authority: Authority,
}

/// The request to mint tokens of `mint` into `token_account`, claimed by
/// `authority`.
#[derive(Clone, Copy, Debug, PartialEq, Eq, Structural)]
pub struct MintTokens {
    pub mint: MintId,
    pub token_account: AccountId,
    pub authority: Authority,
}

/// The request to move tokens from `from` to `to`, claimed by `authority`.
#[derive(Clone, Copy, Debug, PartialEq, Eq, Structural)]
pub struct TransferTokens {
    pub from: AccountId,
    pub to: AccountId,
    pub authority: Authority,
}

/// The request to destroy tokens of `mint` held in `token_account`, claimed
/// by `authority`.
#[derive(Clone, Copy, Debug, PartialEq, Eq, Structural)]
pub struct BurnTokens {
    pub mint: MintId,
    pub token_account: AccountId,
    pub authority: Authority,
}

/// The ledger after minting, or the reason it is refused. The checks come in
/// this order: both records exist, the mint authority matches, the amount is
/// positive, the account belongs to the mint, the supply stays in range.
pub open spec fn mint_outcome(s: LedgerView, ctx: MintTokens, amount: u64) -> Result<
    LedgerView,
    TokenError,
> {
    let m = ctx.mint.index as int;
    let a = ctx.token_account.index as int;
    if m >= s.mints.len() || a >= s.accounts.len() {
        Err(TokenError::NotFound)
    } else if ctx.authority != s.mints[m].authority {
        Err(TokenError::Unauthorized)
    } else if amount == 0 {
        Err(TokenError::InvalidAmount)
    } else if s.accounts[a].mint != ctx.mint {
        Err(TokenError::MintMismatch)
    } else if s.mints[m].supply + amount > u64::MAX {
        Err(TokenError::SupplyOverflow)
    } else {
        Ok(
            LedgerView {
                mints: s.mints.update(m, s.mints[m].with_supply(s.mints[m].supply + amount)),
                accounts: s.accounts.update(
                    a,
                    s.accounts[a].with_balance(s.accounts[a].balance + amount),
                ),
            },
        )
    }
}

/// The ledger after a transfer, or the reason it is refused. The checks come
/// in this order: both accounts exist, the owner of the source matches, the
/// amount is positive, the accounts share a mint, the source holds enough.
/// A transfer from an account to itself leaves its balance as it was.
pub open spec fn transfer_outcome(s: LedgerView, ctx: TransferTokens, amount: u64) -> Result<
    LedgerView,
    TokenError,
> {
    let f = ctx.from.index as int;
    let t = ctx.to.index as int;
    if f >= s.accounts.len() || t >= s.accounts.len() {
        Err(TokenError::NotFound)
    } else if ctx.authority != s.accounts[f].owner {
        Err(TokenError::Unauthorized)
    } else if amount == 0 {
        Err(TokenError::InvalidAmount)
    } else if s.accounts[f].mint != s.accounts[t].mint {
        Err(TokenError::MintMismatch)
    } else if s.accounts[f].balance < amount {
        Err(TokenError::InsufficientBalance)
    } else {
        let debited = s.accounts.update(f, s.accounts[f].with_balance(s.accounts[f].balance - amount));
        Ok(
            LedgerView {
                mints: s.mints,
                accounts: debited.update(t, debited[t].with_balance(debited[t].balance + amount)),
            },
        )
    }
}

/// The ledger after a burn, or the reason it is refused. The checks come in
/// this order: both records exist, the owner of the account matches, the
/// amount is positive, the account belongs to the mint, it holds enough.
pub open spec fn burn_outcome(s: LedgerView, ctx: BurnTokens, amount: u64) -> Result<
    LedgerView,
    TokenError,
> {
    let m = ctx.mint.index as int;
    let a = ctx.token_account.index as int;
    if m >= s.mints.len() || a >= s.accounts.len() {
        Err(TokenError::NotFound)
    } else if ctx.authority != s.accounts[a].owner {
        Err(TokenError::Unauthorized)
    } else if amount == 0 {
        Err(TokenError::InvalidAmount)
    } else if s.accounts[a].mint != ctx.mint {
        Err(TokenError::MintMismatch)
    } else if s.accounts[a].balance < amount {
        Err(TokenError::InsufficientBalance)
    } else {
        Ok(
            LedgerView {
                mints: s.mints.update(m, s.mints[m].with_supply(s.mints[m].supply - amount)),
                accounts: s.accounts.update(
                    a,
                    s.accounts[a].with_balance(s.accounts[a].balance - amount),
                ),
            },
        )
    }
}

/// Minting keeps every account bound to a registered mint and every supply
/// equal to the balances of its accounts.
pub proof fn lemma_mint_keeps_invariant(s: LedgerView, ctx: MintTokens, amount: u64)
    requires
        s.wf(),
    ensures
        match mint_outcome(s, ctx, amount) {
            Ok(t) => t.wf(),
            Err(_) => true,
        },
{
    if let Ok(t) = mint_outcome(s, ctx, amount) {
        let a = ctx.token_account.index as int;
        lemma_balance_bounded(s.accounts, a);
        assert(mint_total(s.accounts, ctx.mint) == s.supply(ctx.mint));
        let credited = s.accounts[a].with_balance(s.accounts[a].balance + amount);
        assert forall|m: MintId| m.index < t.mints.len() implies #[trigger] mint_total(
            t.accounts,
            m,
        ) == t.mints[m.index as int].supply by {
            lemma_total_update(s.accounts, a, credited, m);
            assert(mint_total(s.accounts, m) == s.mints[m.index as int].supply);
        }
        assert forall|i: int| 0 <= i < t.accounts.len() implies (#[trigger] t.accounts[i]).mint.index
            < t.mints.len() by {
            assert(s.accounts[i].mint == t.accounts[i].mint);
        }
    }
}

/// A transfer keeps every account bound to a registered mint and every
/// supply equal to the balances of its accounts.
pub proof fn lemma_transfer_keeps_invariant(s: LedgerView, ctx: TransferTokens, amount: u64)
    requires
        s.wf(),
    ensures
        match transfer_outcome(s, ctx, amount) {
            Ok(t) => t.wf(),
            Err(_) => true,
        },
{
    if let Ok(t) = transfer_outcome(s, ctx, amount) {
        let f = ctx.from.index as int;
        let to = ctx.to.index as int;
        let debited_acct = s.accounts[f].with_balance(s.accounts[f].balance - amount);
        let debited = s.accounts.update(f, debited_acct);
        let credited_acct = debited[to].with_balance(debited[to].balance + amount);
        if f != to {
            lemma_two_balances_bounded(s.accounts, f, to);
            assert(mint_total(s.accounts, s.accounts[f].mint) == s.supply(s.accounts[f].mint));
        }
        assert forall|m: MintId| m.index < t.mints.len() implies #[trigger] mint_total(
            t.accounts,
            m,
        ) == t.mints[m.index as int].supply by {
            lemma_total_update(s.accounts, f, debited_acct, m);
            lemma_total_update(debited, to, credited_acct, m);
            assert(mint_total(s.accounts, m) == s.mints[m.index as int].supply);
        }
        assert forall|i: int| 0 <= i < t.accounts.len() implies (#[trigger] t.accounts[i]).mint.index
            < t.mints.len() by {
            assert(s.accounts[i].mint == t.accounts[i].mint);
        }
    }
}

/// A burn keeps every account bound to a registered mint and every supply
/// equal to the balances of its accounts.
pub proof fn lemma_burn_keeps_invariant(s: LedgerView, ctx: BurnTokens, amount: u64)
    requires
        s.wf(),
    ensures
        match burn_outcome(s, ctx, amount) {
            Ok(t) => t.wf(),
            Err(_) => true,
        },
{
    if let Ok(t) = burn_outcome(s, ctx, amount) {
        let a = ctx.token_account.index as int;
        lemma_balance_bounded(s.accounts, a);
        assert(mint_total(s.accounts, ctx.mint) == s.supply(ctx.mint));
        let debited = s.accounts[a].with_balance(s.accounts[a].balance - amount);
        assert forall|m: MintId| m.index < t.mints.len() implies #[trigger] mint_total(
            t.accounts,
            m,
        ) == t.mints[m.index as int].supply by {
            lemma_total_update(s.accounts, a, debited, m);
            assert(mint_total(s.accounts, m) == s.mints[m.index as int].supply);
        }
        assert forall|i: int| 0 <= i < t.accounts.len() implies (#[trigger] t.accounts[i]).mint.index
            < t.mints.len() by {
            assert(s.accounts[i].mint == t.accounts[i].mint);
        }
    }
}

/// Registers a mint with zero supply, `decimals` digits of precision and the
/// requesting authority as mint authority, and returns its identifier.
pub fn initialize_mint(ledger: &mut Ledger, ctx: &InitializeMint, decimals: u8) -> (r: MintId)
    requires
        old(ledger).wf(),
    ensures
        final(ledger).wf(),
        r.index == old(ledger)@.mints.len(),
        final(ledger)@.mints == old(ledger)@.mints.push(
            Mint { decimals, supply: 0, authority: ctx.authority },
        ),
        final(ledger)@.accounts == old(ledger)@.accounts,
{
    let ghost before = ledger@;
    let id = ledger.registry.create_mint(decimals, ctx.authority);
    proof {
        assert forall|m: MintId| m.index < ledger@.mints.len() implies #[trigger] mint_total(
            ledger@.accounts,
            m,
        ) == ledger@.mints[m.index as int].supply by {
            if m.index < before.mints.len() {
                assert(mint_total(before.accounts, m) == before.mints[m.index as int].supply);
            } else {
                assert forall|i: int| 0 <= i < before.accounts.len() implies (
                #[trigger] before.accounts[i]).mint != m by {
                    assert(before.accounts[i].mint.index < before.mints.len());
                }
                lemma_total_of_unused_mint(before.accounts, m);
            }
        }
        assert forall|i: int| 0 <= i < ledger@.accounts.len() implies (
        #[trigger] ledger@.accounts[i]).mint.index < ledger@.mints.len() by {
            assert(before.accounts[i].mint.index < before.mints.len());
        }
    }
    id
}

/// Mints `amount` tokens of `ctx.mint` into `ctx.token_account`: both the
/// supply and the balance grow by `amount`. On an error nothing changes.
pub fn mint_tokens(ledger: &mut Ledger, ctx: &MintTokens, amount: u64) -> (r: Result<
    (),
    TokenError,
>)
    requires
        old(ledger).wf(),
    ensures
        final(ledger).wf(),
        match mint_outcome(old(ledger)@, *ctx, amount) {
            Ok(t) => r is Ok && final(ledger)@ == t,
            Err(e) => r == Err::<(), TokenError>(e) && final(ledger)@ == old(ledger)@,
        },
{
    let ghost before = ledger@;
    let mint = match ledger.registry.get(ctx.mint) {
        Ok(m) => m,
        Err(e) => return Err(e),
    };
    let account = match ledger.store.get(ctx.token_account) {
        Ok(a) => a,
        Err(e) => return Err(e),
    };
    if !verify(&ctx.authority, &mint.authority) {
        return Err(TokenError::Unauthorized);
    }
    if amount == 0 {
        return Err(TokenError::InvalidAmount);
    }
    if account.mint != ctx.mint {
        return Err(TokenError::MintMismatch);
    }
    if let Err(e) = ledger.registry.adjust_supply(ctx.mint, amount as i128) {
        return Err(e);
    }
    proof {
        lemma_balance_bounded(before.accounts, ctx.token_account.index as int);
        assert(mint_total(before.accounts, ctx.mint) == before.supply(ctx.mint));
    }
    if let Err(e) = ledger.store.adjust_balance(ctx.token_account, amount as i128) {
        return Err(e);
    }
    proof {
        lemma_mint_keeps_invariant(before, *ctx, amount);
    }
    Ok(())
}

/// Moves `amount` tokens from `ctx.from` to `ctx.to`, both of one mint; the
/// supply is untouched. On an error nothing changes.
pub fn transfer_tokens(ledger: &mut Ledger, ctx: &TransferTokens, amount: u64) -> (r: Result<
    (),
    TokenError,
>)
    requires
        old(ledger).wf(),
    ensures
        final(ledger).wf(),
        match transfer_outcome(old(ledger)@, *ctx, amount) {
            Ok(t) => r is Ok && final(ledger)@ == t,
            Err(e) => r == Err::<(), TokenError>(e) && final(ledger)@ == old(ledger)@,
        },
{
    let ghost before = ledger@;
    let from = match ledger.store.get(ctx.from) {
        Ok(a) => a,
        Err(e) => return Err(e),
    };
    let to = match ledger.store.get(ctx.to) {
        Ok(a) => a,
        Err(e) => return Err(e),
    };
    if !verify(&ctx.authority, &from.owner) {
        return Err(TokenError::Unauthorized);
    }
    if amount == 0 {
        return Err(TokenError::InvalidAmount);
    }
    if from.mint != to.mint {
        return Err(TokenError::MintMismatch);
    }
    if let Err(e) = ledger.store.adjust_balance(ctx.from, -(amount as i128)) {
        return Err(e);
    }
    proof {
        if ctx.from != ctx.to {
            lemma_two_balances_bounded(before.accounts, ctx.from.index as int, ctx.to.index as int);
            assert(mint_total(before.accounts, from.mint) == before.supply(from.mint));
        }
    }
    if let Err(e) = ledger.store.adjust_balance(ctx.to, amount as i128) {
        return Err(e);
    }
    proof {
        lemma_transfer_keeps_invariant(before, *ctx, amount);
    }
    Ok(())
}

/// Destroys `amount` tokens of `ctx.mint` held in `ctx.token_account`: both
/// the balance and the supply shrink by `amount`. On an error nothing changes.
pub fn burn_tokens(ledger: &mut Ledger, ctx: &BurnTokens, amount: u64) -> (r: Result<
    (),
    TokenError,
>)
    requires
        old(ledger).wf(),
    ensures
        final(ledger).wf(),
        match burn_outcome(old(ledger)@, *ctx, amount) {
            Ok(t) => r is Ok && final(ledger)@ == t,
            Err(e) => r == Err::<(), TokenError>(e) && final(ledger)@ == old(ledger)@,
        },
{
    let ghost before = ledger@;
    if let Err(e) = ledger.registry.get(ctx.mint) {
        return Err(e);
    }
    let account = match ledger.store.get(ctx.token_account) {
        Ok(a) => a,
        Err(e) => return Err(e),
    };
    if !verify(&ctx.authority, &account.owner) {
        return Err(TokenError::Unauthorized);
    }
    if amount == 0 {
        return Err(TokenError::InvalidAmount);
    }
    if account.mint != ctx.mint {
        return Err(TokenError::MintMismatch);
    }
    if let Err(e) = ledger.store.adjust_balance(ctx.token_account, -(amount as i128)) {
        return Err(e);
    }
    proof {
        lemma_balance_bounded(before.accounts, ctx.token_account.index as int);
        assert(mint_total(before.accounts, ctx.mint) == before.supply(ctx.mint));
    }
    if let Err(e) = ledger.registry.adjust_supply(ctx.mint, -(amount as i128)) {
        return Err(e);
    }
    proof {
        lemma_burn_keeps_invariant(before, *ctx, amount);
    }
    Ok(())
}

} // verus!
