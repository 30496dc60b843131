use vstd::prelude::*;

use crate::error::TokenError;
use crate::ledger::{Ledger, LedgerView};
use crate::program::{
    burn_outcome, burn_tokens, lemma_burn_keeps_invariant, lemma_mint_keeps_invariant,
    lemma_transfer_keeps_invariant, mint_outcome, mint_tokens, transfer_outcome, transfer_tokens,
    BurnTokens, MintTokens, TransferTokens,
};

verus! {

/// One requested ledger operation with its amount.
#[derive(Clone, Copy, Debug, PartialEq, Eq, Structural)]
pub enum Operation {
    Mint(MintTokens, u64),
    Transfer(TransferTokens, u64),
    Burn(BurnTokens, u64),
}

/// The ledger after one operation, or the reason it is refused.
pub open spec fn operation_outcome(s: LedgerView, op: Operation) -> Result<LedgerView, TokenError> {
    match op {
        Operation::Mint(ctx, amount) => mint_outcome(s, ctx, amount),
        Operation::Transfer(ctx, amount) => transfer_outcome(s, ctx, amount),
        Operation::Burn(ctx, amount) => burn_outcome(s, ctx, amount),
    }
}

/// The ledger after the operations in order, or the error of the first one
/// refused.
pub open spec fn batch_outcome(s: LedgerView, ops: Seq<Operation>) -> Result<
    LedgerView,
    TokenError,
>
    decreases ops.len(),
{
    if ops.len() == 0 {
        Ok(s)
    } else {
        match batch_outcome(s, ops.drop_last()) {
            Ok(t) => operation_outcome(t, ops.last()),
            Err(e) => Err(e),
        }
    }
}

/// Every operation that succeeds keeps the ledger invariant: each account
/// bound to a registered mint, and for each mint the balances of its
/// accounts adding up to its supply.
pub proof fn lemma_operation_keeps_invariant(s: LedgerView, op: Operation)
    requires
        s.wf(),
    ensures
        match operation_outcome(s, op) {
            Ok(t) => t.wf(),
            Err(_) => true,
        },
{
    match op {
        Operation::Mint(ctx, amount) => lemma_mint_keeps_invariant(s, ctx, amount),
        Operation::Transfer(ctx, amount) => lemma_transfer_keeps_invariant(s, ctx, amount),
        Operation::Burn(ctx, amount) => lemma_burn_keeps_invariant(s, ctx, amount),
    }
}

/// At every commit point the invariant holds: a batch that succeeds from a
/// ledger whose supplies equal the balances of their accounts leaves one
/// whose supplies still do.
pub proof fn lemma_batch_keeps_invariant(s: LedgerView, ops: Seq<Operation>)
    requires
        s.wf(),
    ensures
        match batch_outcome(s, ops) {
            Ok(t) => t.wf(),
            Err(_) => true,
        },
    decreases ops.len(),
{
    if ops.len() > 0 {
        lemma_batch_keeps_invariant(s, ops.drop_last());
        if let Ok(t) = batch_outcome(s, ops.drop_last()) {
            lemma_operation_keeps_invariant(t, ops.last());
        }
    }
}

/// Applies one operation; on an error nothing changes.
pub fn apply(ledger: &mut Ledger, op: &Operation) -> (r: Result<(), TokenError>)
    requires
        old(ledger).wf(),
    ensures
        final(ledger).wf(),
        match operation_outcome(old(ledger)@, *op) {
            Ok(t) => r is Ok && final(ledger)@ == t,
            Err(e) => r == Err::<(), TokenError>(e) && final(ledger)@ == old(ledger)@,
        },
{
    match op {
        Operation::Mint(ctx, amount) => mint_tokens(ledger, ctx, *amount),
        Operation::Transfer(ctx, amount) => transfer_tokens(ledger, ctx, *amount),
        Operation::Burn(ctx, amount) => burn_tokens(ledger, ctx, *amount),
    }
}

/// Applies the operations in order as one transaction: either all of them
/// take effect, or the first error is returned and the ledger is as it was.
pub fn execute(ledger: &mut Ledger, ops: &Vec<Operation>) -> (r: Result<(), TokenError>)
    requires
        old(ledger).wf(),
    ensures
        final(ledger).wf(),
        match batch_outcome(old(ledger)@, ops@) {
            Ok(t) => r is Ok && final(ledger)@ == t,
            Err(e) => r == Err::<(), TokenError>(e) && final(ledger)@ == old(ledger)@,
        },
{
    let mut work = ledger.duplicate();
    let mut i: usize = 0;
    while i < ops.len()
        invariant
            i <= ops@.len(),
            ledger@ == old(ledger)@,
            ledger.wf(),
            work.wf(),
            batch_outcome(ledger@, ops@.take(i as int)) == Ok::<LedgerView, TokenError>(work@),
        decreases ops@.len() - i,
    {
        let ghost prefix = ops@.take(i as int + 1);
        proof {
            assert(prefix.drop_last() =~= ops@.take(i as int));
        }
        if let Err(e) = apply(&mut work, &ops[i]) {
            proof {
                lemma_batch_prefix_fails(ledger@, ops@, i as int + 1);
            }
            return Err(e);
        }
        i = i + 1;
    }
    proof {
        assert(ops@.take(i as int) =~= ops@);
    }
    *ledger = work;
    Ok(())
}

/// Once a prefix of a batch fails, the whole batch fails with that error.
proof fn lemma_batch_prefix_fails(s: LedgerView, ops: Seq<Operation>, n: int)
    requires
        0 <= n <= ops.len(),
        batch_outcome(s, ops.take(n)) is Err,
    ensures
        batch_outcome(s, ops) == batch_outcome(s, ops.take(n)),
    decreases ops.len() - n,
{
    if n < ops.len() {
        assert(ops.take(n + 1).drop_last() =~= ops.take(n));
        lemma_batch_prefix_fails(s, ops, n + 1);
    } else {
        assert(ops.take(n) =~= ops);
    }
}

} // verus!
