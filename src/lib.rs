//! A fungible-token ledger: a registry of mints, a store of token accounts,
//! and the mint, transfer and burn operations over them, each of which either
//! applies completely or leaves the ledger as it was. Every operation keeps
//! the total of the balances of each mint equal to that mint's supply.

mod accounts;
mod authority;
mod error;
mod laws;
mod ledger;
mod program;
mod registry;
mod transaction;

pub use accounts::{AccountId, AccountStore, TokenAccount};
pub use authority::{verify, Authority};
pub use error::TokenError;
pub use laws::{
    law_burn_lowers_balance_and_supply, law_mint_into_empty_account,
    law_transfer_across_mints_refused, law_transfer_beyond_balance_refused,
    law_transfer_moves_amount, law_wrong_authority_refused,
};
pub use ledger::{Ledger, LedgerView};
pub use program::{
    burn_tokens, initialize_mint, mint_tokens, transfer_tokens, BurnTokens, InitializeMint,
    MintTokens, TransferTokens,
};
pub use registry::{Mint, MintId, MintRegistry};
pub use transaction::{apply, execute, lemma_batch_keeps_invariant, Operation};
