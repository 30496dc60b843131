use vstd::prelude::*;

use crate::accounts::{
    lemma_balance_bounded, lemma_total_update, lemma_two_balances_bounded, mint_total,
};
use crate::error::TokenError;
use crate::ledger::LedgerView;
use crate::program::{
    burn_outcome, mint_outcome, transfer_outcome, BurnTokens, MintTokens, TransferTokens,
};
use crate::registry::MintId;
use crate::transaction::{operation_outcome, Operation};

verus! {

/// Minting a positive amount `a`, by the mint authority, into an empty
/// account of a mint with zero supply leaves that account holding `a` and
/// the mint's supply at `a`.
pub proof fn law_mint_into_empty_account(s: LedgerView, ctx: MintTokens, a: u64)
    requires
        s.wf(),
        ctx.mint.index < s.mints.len(),
        ctx.token_account.index < s.accounts.len(),
        s.accounts[ctx.token_account.index as int].mint == ctx.mint,
        s.supply(ctx.mint) == 0,
        s.balance(ctx.token_account) == 0,
        ctx.authority == s.mints[ctx.mint.index as int].authority,
        a > 0,
    ensures
        mint_outcome(s, ctx, a) is Ok,
        mint_outcome(s, ctx, a)->Ok_0.balance(ctx.token_account) == a,
        mint_outcome(s, ctx, a)->Ok_0.supply(ctx.mint) == a,
{
}

/// A transfer of a positive amount `a` by the owner of account `from`,
/// holding at least `a`, to another account `to` of the same mint takes `a`
/// from `from`, gives `a` to `to`, and leaves every supply and every mint's
/// total of balances unchanged.
pub proof fn law_transfer_moves_amount(s: LedgerView, ctx: TransferTokens, a: u64)
    requires
        s.wf(),
        ctx.from.index < s.accounts.len(),
        ctx.to.index < s.accounts.len(),
        ctx.from != ctx.to,
        s.accounts[ctx.from.index as int].mint == s.accounts[ctx.to.index as int].mint,
        ctx.authority == s.accounts[ctx.from.index as int].owner,
        a > 0,
        s.balance(ctx.from) >= a,
    ensures
        transfer_outcome(s, ctx, a) is Ok,
        transfer_outcome(s, ctx, a)->Ok_0.balance(ctx.from) == s.balance(ctx.from) - a,
        transfer_outcome(s, ctx, a)->Ok_0.balance(ctx.to) == s.balance(ctx.to) + a,
        transfer_outcome(s, ctx, a)->Ok_0.mints == s.mints,
        forall|m: MintId|
            #[trigger] mint_total(transfer_outcome(s, ctx, a)->Ok_0.accounts, m) == mint_total(
                s.accounts,
                m,
            ),
{
    let t = transfer_outcome(s, ctx, a)->Ok_0;
    let f = ctx.from.index as int;
    let to = ctx.to.index as int;
    let debited = s.accounts.update(f, s.accounts[f].with_balance(s.accounts[f].balance - a));
    lemma_two_balances_bounded(s.accounts, f, to);
    assert(mint_total(s.accounts, s.accounts[f].mint) == s.supply(s.accounts[f].mint));
    assert forall|m: MintId| #[trigger] mint_total(t.accounts, m) == mint_total(s.accounts, m) by {
        lemma_total_update(s.accounts, f, s.accounts[f].with_balance(s.accounts[f].balance - a), m);
        lemma_total_update(debited, to, debited[to].with_balance(debited[to].balance + a), m);
    }
}

/// Burning a positive amount `a` by the owner of an account of the mint
/// that holds at least `a` lowers both the account's balance and the mint's
/// supply by `a`.
pub proof fn law_burn_lowers_balance_and_supply(s: LedgerView, ctx: BurnTokens, a: u64)
    requires
        s.wf(),
        ctx.mint.index < s.mints.len(),
        ctx.token_account.index < s.accounts.len(),
        s.accounts[ctx.token_account.index as int].mint == ctx.mint,
        ctx.authority == s.accounts[ctx.token_account.index as int].owner,
        a > 0,
        s.balance(ctx.token_account) >= a,
    ensures
        burn_outcome(s, ctx, a) is Ok,
        burn_outcome(s, ctx, a)->Ok_0.balance(ctx.token_account) == s.balance(ctx.token_account)
            - a,
        burn_outcome(s, ctx, a)->Ok_0.supply(ctx.mint) == s.supply(ctx.mint) - a,
{
    lemma_balance_bounded(s.accounts, ctx.token_account.index as int);
    assert(mint_total(s.accounts, ctx.mint) == s.supply(ctx.mint));
}

/// A transfer of more than the source holds, by its owner between accounts
/// of one mint, is refused with `InsufficientBalance` (and a refused
/// operation changes nothing).
pub proof fn law_transfer_beyond_balance_refused(s: LedgerView, ctx: TransferTokens, a: u64)
    requires
        ctx.from.index < s.accounts.len(),
        ctx.to.index < s.accounts.len(),
        s.accounts[ctx.from.index as int].mint == s.accounts[ctx.to.index as int].mint,
        ctx.authority == s.accounts[ctx.from.index as int].owner,
        a > s.balance(ctx.from),
    ensures
        transfer_outcome(s, ctx, a) == Err::<LedgerView, TokenError>(
            TokenError::InsufficientBalance,
        ),
{
}

/// Any operation on existing records whose claimed authority is not the one
/// recorded (the mint authority for minting, the account owner otherwise) is
/// refused with `Unauthorized` (and a refused operation changes nothing).
pub proof fn law_wrong_authority_refused(s: LedgerView, op: Operation)
    requires
        match op {
            Operation::Mint(ctx, _) => ctx.mint.index < s.mints.len() && ctx.token_account.index
                < s.accounts.len() && ctx.authority != s.mints[ctx.mint.index as int].authority,
            Operation::Transfer(ctx, _) => ctx.from.index < s.accounts.len() && ctx.to.index
                < s.accounts.len() && ctx.authority != s.accounts[ctx.from.index as int].owner,
            Operation::Burn(ctx, _) => ctx.mint.index < s.mints.len() && ctx.token_account.index
                < s.accounts.len() && ctx.authority
                != s.accounts[ctx.token_account.index as int].owner,
        },
    ensures
        operation_outcome(s, op) == Err::<LedgerView, TokenError>(TokenError::Unauthorized),
{
}

/// A transfer of a positive amount by the source's owner between accounts of
/// different mints is refused with `MintMismatch` (and a refused operation
/// changes nothing).
pub proof fn law_transfer_across_mints_refused(s: LedgerView, ctx: TransferTokens, a: u64)
    requires
        ctx.from.index < s.accounts.len(),
        ctx.to.index < s.accounts.len(),
        s.accounts[ctx.from.index as int].mint != s.accounts[ctx.to.index as int].mint,
        ctx.authority == s.accounts[ctx.from.index as int].owner,
        a > 0,
    ensures
        transfer_outcome(s, ctx, a) == Err::<LedgerView, TokenError>(TokenError::MintMismatch),
{
}

} // verus!
