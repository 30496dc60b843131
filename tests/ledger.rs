use token_program::{
    burn_tokens, execute, initialize_mint, mint_tokens, transfer_tokens, AccountId, AccountStore,
    Authority, BurnTokens, InitializeMint, Ledger, MintId, MintRegistry, MintTokens, Operation,
    TokenError, TransferTokens,
};

const A1: Authority = Authority { key: 1 };
const A2: Authority = Authority { key: 2 };
const A3: Authority = Authority { key: 3 };

fn setup() -> (Ledger, MintId, AccountId, AccountId) {
    let mut l = Ledger::new();
    let m = initialize_mint(&mut l, &InitializeMint { authority: A1 }, 9);
    let acct1 = l.open_account(m, A1).unwrap();
    let acct2 = l.open_account(m, A2).unwrap();
    (l, m, acct1, acct2)
}

fn mint_ctx(m: MintId, a: AccountId, auth: Authority) -> MintTokens {
    MintTokens { mint: m, token_account: a, authority: auth }
}

fn supply(l: &Ledger, m: MintId) -> u64 {
    l.get_mint(m).unwrap().supply
}

fn balance(l: &Ledger, a: AccountId) -> u64 {
    l.get_balance(a).unwrap()
}

#[test]
fn fresh_mint_has_zero_supply_and_given_decimals() {
    let (l, m, acct1, _) = setup();
    let rec = l.get_mint(m).unwrap();
    assert_eq!(rec.supply, 0);
    assert_eq!(rec.decimals, 9);
    assert_eq!(rec.authority, A1);
    assert_eq!(balance(&l, acct1), 0);
    assert_eq!(l.get_account(acct1).unwrap().mint, m);
}

#[test]
fn mint_into_empty_account() {
    let (mut l, m, acct1, _) = setup();
    assert_eq!(mint_tokens(&mut l, &mint_ctx(m, acct1, A1), 750), Ok(()));
    assert_eq!(balance(&l, acct1), 750);
    assert_eq!(supply(&l, m), 750);
}

#[test]
fn transfer_moves_amount() {
    let (mut l, m, acct1, acct2) = setup();
    mint_tokens(&mut l, &mint_ctx(m, acct1, A1), 500).unwrap();
    let ctx = TransferTokens { from: acct1, to: acct2, authority: A1 };
    assert_eq!(transfer_tokens(&mut l, &ctx, 120), Ok(()));
    assert_eq!(balance(&l, acct1), 380);
    assert_eq!(balance(&l, acct2), 120);
    assert_eq!(supply(&l, m), 500);
}

#[test]
fn transfer_to_same_account_keeps_balance() {
    let (mut l, m, acct1, _) = setup();
    mint_tokens(&mut l, &mint_ctx(m, acct1, A1), 50).unwrap();
    let ctx = TransferTokens { from: acct1, to: acct1, authority: A1 };
    assert_eq!(transfer_tokens(&mut l, &ctx, 50), Ok(()));
    assert_eq!(balance(&l, acct1), 50);
}

#[test]
fn burn_lowers_balance_and_supply() {
    let (mut l, m, acct1, _) = setup();
    mint_tokens(&mut l, &mint_ctx(m, acct1, A1), 300).unwrap();
    let ctx = BurnTokens { mint: m, token_account: acct1, authority: A1 };
    assert_eq!(burn_tokens(&mut l, &ctx, 300), Ok(()));
    assert_eq!(balance(&l, acct1), 0);
    assert_eq!(supply(&l, m), 0);
}

#[test]
fn transfer_beyond_balance_refused() {
    let (mut l, m, acct1, acct2) = setup();
    mint_tokens(&mut l, &mint_ctx(m, acct1, A1), 10).unwrap();
    let ctx = TransferTokens { from: acct1, to: acct2, authority: A1 };
    assert_eq!(transfer_tokens(&mut l, &ctx, 11), Err(TokenError::InsufficientBalance));
    assert_eq!(balance(&l, acct1), 10);
    assert_eq!(balance(&l, acct2), 0);
}

#[test]
fn burn_beyond_balance_refused() {
    let (mut l, m, acct1, _) = setup();
    mint_tokens(&mut l, &mint_ctx(m, acct1, A1), 10).unwrap();
    let ctx = BurnTokens { mint: m, token_account: acct1, authority: A1 };
    assert_eq!(burn_tokens(&mut l, &ctx, 11), Err(TokenError::InsufficientBalance));
    assert_eq!(balance(&l, acct1), 10);
    assert_eq!(supply(&l, m), 10);
}

#[test]
fn wrong_authority_refused_for_every_operation() {
    let (mut l, m, acct1, acct2) = setup();
    mint_tokens(&mut l, &mint_ctx(m, acct1, A1), 100).unwrap();
    assert_eq!(mint_tokens(&mut l, &mint_ctx(m, acct1, A2), 5), Err(TokenError::Unauthorized));
    let t = TransferTokens { from: acct1, to: acct2, authority: A2 };
    assert_eq!(transfer_tokens(&mut l, &t, 5), Err(TokenError::Unauthorized));
    let b = BurnTokens { mint: m, token_account: acct1, authority: A3 };
    assert_eq!(burn_tokens(&mut l, &b, 5), Err(TokenError::Unauthorized));
    assert_eq!(balance(&l, acct1), 100);
    assert_eq!(balance(&l, acct2), 0);
    assert_eq!(supply(&l, m), 100);
}

#[test]
fn transfer_across_mints_refused() {
    let (mut l, m, acct1, _) = setup();
    let other = initialize_mint(&mut l, &InitializeMint { authority: A1 }, 6);
    let foreign = l.open_account(other, A2).unwrap();
    mint_tokens(&mut l, &mint_ctx(m, acct1, A1), 40).unwrap();
    let ctx = TransferTokens { from: acct1, to: foreign, authority: A1 };
    assert_eq!(transfer_tokens(&mut l, &ctx, 5), Err(TokenError::MintMismatch));
    assert_eq!(balance(&l, acct1), 40);
    assert_eq!(balance(&l, foreign), 0);
    assert_eq!(supply(&l, m), 40);
    assert_eq!(supply(&l, other), 0);
}

#[test]
fn mint_and_burn_across_mints_refused() {
    let (mut l, m, acct1, _) = setup();
    let other = initialize_mint(&mut l, &InitializeMint { authority: A1 }, 6);
    assert_eq!(mint_tokens(&mut l, &mint_ctx(other, acct1, A1), 5), Err(TokenError::MintMismatch));
    mint_tokens(&mut l, &mint_ctx(m, acct1, A1), 5).unwrap();
    let b = BurnTokens { mint: other, token_account: acct1, authority: A1 };
    assert_eq!(burn_tokens(&mut l, &b, 1), Err(TokenError::MintMismatch));
    assert_eq!(supply(&l, other), 0);
    assert_eq!(balance(&l, acct1), 5);
}

#[test]
fn worked_example() {
    let mut l = Ledger::new();
    let m1 = initialize_mint(&mut l, &InitializeMint { authority: A1 }, 9);
    assert_eq!(supply(&l, m1), 0);
    let acct1 = l.open_account(m1, A1).unwrap();
    let acct2 = l.open_account(m1, A2).unwrap();
    mint_tokens(&mut l, &mint_ctx(m1, acct1, A1), 1000).unwrap();
    assert_eq!(balance(&l, acct1), 1000);
    assert_eq!(supply(&l, m1), 1000);
    transfer_tokens(&mut l, &TransferTokens { from: acct1, to: acct2, authority: A1 }, 400).unwrap();
    assert_eq!(balance(&l, acct1), 600);
    assert_eq!(balance(&l, acct2), 400);
    burn_tokens(&mut l, &BurnTokens { mint: m1, token_account: acct2, authority: A2 }, 100).unwrap();
    assert_eq!(balance(&l, acct2), 300);
    assert_eq!(supply(&l, m1), 900);
}

#[test]
fn zero_amounts_refused() {
    let (mut l, m, acct1, acct2) = setup();
    assert_eq!(mint_tokens(&mut l, &mint_ctx(m, acct1, A1), 0), Err(TokenError::InvalidAmount));
    let t = TransferTokens { from: acct1, to: acct2, authority: A1 };
    assert_eq!(transfer_tokens(&mut l, &t, 0), Err(TokenError::InvalidAmount));
    let b = BurnTokens { mint: m, token_account: acct1, authority: A1 };
    assert_eq!(burn_tokens(&mut l, &b, 0), Err(TokenError::InvalidAmount));
}

#[test]
fn unknown_records_refused() {
    let (mut l, m, acct1, _) = setup();
    let missing_mint = MintId { index: 7 };
    let missing_acct = AccountId { index: 7 };
    assert_eq!(l.open_account(missing_mint, A1), Err(TokenError::NotFound));
    assert_eq!(mint_tokens(&mut l, &mint_ctx(missing_mint, acct1, A1), 1), Err(TokenError::NotFound));
    assert_eq!(mint_tokens(&mut l, &mint_ctx(m, missing_acct, A1), 1), Err(TokenError::NotFound));
    let t = TransferTokens { from: acct1, to: missing_acct, authority: A1 };
    assert_eq!(transfer_tokens(&mut l, &t, 1), Err(TokenError::NotFound));
    let b = BurnTokens { mint: missing_mint, token_account: acct1, authority: A1 };
    assert_eq!(burn_tokens(&mut l, &b, 1), Err(TokenError::NotFound));
    assert_eq!(l.get_balance(missing_acct), Err(TokenError::NotFound));
    assert_eq!(l.get_mint(missing_mint), Err(TokenError::NotFound));
}

#[test]
fn supply_overflow_refused() {
    let (mut l, m, acct1, acct2) = setup();
    mint_tokens(&mut l, &mint_ctx(m, acct1, A1), u64::MAX).unwrap();
    assert_eq!(supply(&l, m), u64::MAX);
    assert_eq!(mint_tokens(&mut l, &mint_ctx(m, acct2, A1), 1), Err(TokenError::SupplyOverflow));
    assert_eq!(balance(&l, acct2), 0);
    assert_eq!(supply(&l, m), u64::MAX);
}

#[test]
fn registry_adjusts_supply_within_range() {
    let mut r = MintRegistry::new();
    let m = r.create_mint(2, A1);
    assert_eq!(r.adjust_supply(m, 5), Ok(()));
    assert_eq!(r.adjust_supply(m, -6), Err(TokenError::SupplyUnderflow));
    assert_eq!(r.adjust_supply(m, u64::MAX as i128), Err(TokenError::SupplyOverflow));
    assert_eq!(r.adjust_supply(m, -5), Ok(()));
    assert_eq!(r.get(m).unwrap().supply, 0);
    assert_eq!(r.adjust_supply(MintId { index: 1 }, 1), Err(TokenError::NotFound));
}

#[test]
fn store_adjusts_balance_within_range() {
    let mut s = AccountStore::new();
    let a = s.open_account(MintId { index: 0 }, A1);
    assert_eq!(s.adjust_balance(a, 9), Ok(()));
    assert_eq!(s.adjust_balance(a, -10), Err(TokenError::InsufficientBalance));
    assert_eq!(s.adjust_balance(a, i128::MIN), Err(TokenError::InsufficientBalance));
    assert_eq!(s.adjust_balance(a, i128::MAX), Err(TokenError::SupplyOverflow));
    assert_eq!(s.get_balance(a), Ok(9));
    assert_eq!(s.adjust_balance(AccountId { index: 3 }, 1), Err(TokenError::NotFound));
}

#[test]
fn batch_applies_all_operations() {
    let (mut l, m, acct1, acct2) = setup();
    let ops = vec![
        Operation::Mint(mint_ctx(m, acct1, A1), 1000),
        Operation::Transfer(TransferTokens { from: acct1, to: acct2, authority: A1 }, 400),
        Operation::Burn(BurnTokens { mint: m, token_account: acct2, authority: A2 }, 100),
    ];
    assert_eq!(execute(&mut l, &ops), Ok(()));
    assert_eq!(balance(&l, acct1), 600);
    assert_eq!(balance(&l, acct2), 300);
    assert_eq!(supply(&l, m), 900);
}

#[test]
fn batch_failure_rolls_back() {
    let (mut l, m, acct1, acct2) = setup();
    let ops = vec![
        Operation::Mint(mint_ctx(m, acct1, A1), 1000),
        Operation::Transfer(TransferTokens { from: acct1, to: acct2, authority: A1 }, 400),
        Operation::Burn(BurnTokens { mint: m, token_account: acct2, authority: A2 }, 500),
    ];
    assert_eq!(execute(&mut l, &ops), Err(TokenError::InsufficientBalance));
    assert_eq!(balance(&l, acct1), 0);
    assert_eq!(balance(&l, acct2), 0);
    assert_eq!(supply(&l, m), 0);
}

#[test]
fn empty_batch_succeeds() {
    let (mut l, m, _, _) = setup();
    assert_eq!(execute(&mut l, &Vec::new()), Ok(()));
    assert_eq!(supply(&l, m), 0);
}

#[test]
fn supply_matches_balances_after_many_operations() {
    let (mut l, m, acct1, acct2) = setup();
    let acct3 = l.open_account(m, A3).unwrap();
    mint_tokens(&mut l, &mint_ctx(m, acct1, A1), 70).unwrap();
    mint_tokens(&mut l, &mint_ctx(m, acct3, A1), 30).unwrap();
    transfer_tokens(&mut l, &TransferTokens { from: acct3, to: acct2, authority: A3 }, 25).unwrap();
    burn_tokens(&mut l, &BurnTokens { mint: m, token_account: acct1, authority: A1 }, 20).unwrap();
    let _ = transfer_tokens(&mut l, &TransferTokens { from: acct2, to: acct1, authority: A1 }, 5);
    let total = balance(&l, acct1) + balance(&l, acct2) + balance(&l, acct3);
    assert_eq!(total, supply(&l, m));
    assert_eq!(total, 80);
}
