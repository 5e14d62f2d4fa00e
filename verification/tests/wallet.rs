use candid::Principal;
use icp_token_wallet_backend::state::INITIAL_SUPPLY;
use icp_token_wallet_backend::wallet::DECIMALS;
use icp_token_wallet_backend::{AccountId, TokenWallet};

fn account(principal: Principal) -> AccountId {
    AccountId::from_bytes(principal.as_slice()).unwrap()
}

fn numbered(n: u8) -> AccountId {
    account(Principal::from_slice(&[0, 0, 0, 0, 0, 0, 0, n, 1, 1]))
}

fn setup_test_wallet() -> TokenWallet {
    TokenWallet::new()
}

/// A ledger owned by `numbered(0)` in which `holder` has been given `amount`.
fn wallet_with_balance(holder: &AccountId, amount: u64) -> TokenWallet {
    let mut wallet = setup_test_wallet();
    assert!(wallet.init(numbered(0)));
    assert!(wallet.transfer(&numbered(0), holder, amount));
    wallet
}

#[test]
fn test_init() {
    let wallet = setup_test_wallet();
    let (_, token_symbol, decimals, _) = wallet.token_info();
    assert_eq!(token_symbol, "ICPT");
    assert_eq!(decimals, 8);
}

#[test]
fn test_transfer() {
    let sender = account(Principal::management_canister());
    let receiver = account(Principal::from_text("2vxsx-fae").unwrap());

    // Setup initial balance
    let mut wallet = wallet_with_balance(&sender, 1000);

    // Test transfer
    assert!(wallet.transfer(&sender, &receiver, 500));
    assert_eq!(wallet.balance_of(&sender), 500);
    assert_eq!(wallet.balance_of(&receiver), 500);
}

#[test]
fn test_insufficient_balance() {
    let sender = account(Principal::management_canister());
    let receiver = account(Principal::from_text("2vxsx-fae").unwrap());

    // Setup initial balance
    let mut wallet = wallet_with_balance(&sender, 100);

    // Test transfer with insufficient balance
    assert!(!wallet.transfer(&sender, &receiver, 500));
    assert_eq!(wallet.balance_of(&sender), 100);
    assert_eq!(wallet.balance_of(&receiver), 0);
}

#[test]
fn init_gives_the_caller_the_initial_supply() {
    let a = numbered(1);
    let mut wallet = TokenWallet::new();
    assert!(wallet.init(a.clone()));
    assert!(wallet.is_initialized());
    assert_eq!(wallet.owner(), &a);
    assert_eq!(wallet.balance_of(&a), 1_000_000_000);
    assert_eq!(wallet.total_supply(), 1_000_000_000);
    assert_eq!(INITIAL_SUPPLY, 1_000_000_000);
    assert_eq!(wallet.balance_of(&numbered(2)), 0);
}

#[test]
fn transfer_moves_the_amount() {
    let a = numbered(1);
    let b = numbered(2);
    let mut wallet = TokenWallet::new();
    wallet.init(a.clone());
    assert!(wallet.transfer(&a, &b, 500));
    assert_eq!(wallet.balance_of(&a), 999_999_500);
    assert_eq!(wallet.balance_of(&b), 500);
    assert_eq!(wallet.total_supply(), 1_000_000_000);
}

#[test]
fn transfer_without_funds_is_declined() {
    let a = numbered(1);
    let b = numbered(2);
    let mut wallet = wallet_with_balance(&a, 100);
    assert!(!wallet.transfer(&a, &b, 500));
    assert_eq!(wallet.balance_of(&a), 100);
    assert_eq!(wallet.balance_of(&b), 0);
    assert!(!wallet.transfer(&a, &b, 101));
    assert!(wallet.transfer(&a, &b, 100));
    assert_eq!(wallet.balance_of(&a), 0);
    assert_eq!(wallet.balance_of(&b), 100);
}

#[test]
fn mint_by_another_caller_is_declined() {
    let a = numbered(1);
    let b = numbered(2);
    let c = numbered(3);
    let mut wallet = TokenWallet::new();
    wallet.init(a.clone());
    assert!(!wallet.mint(&b, &c, 1000));
    assert_eq!(wallet.total_supply(), 1_000_000_000);
    assert_eq!(wallet.balance_of(&c), 0);
    assert_eq!(wallet.balance_of(&a), 1_000_000_000);
    assert_eq!(wallet.balance_of(&b), 0);
    assert!(!wallet.mint(&b, &b, 0));
    assert!(!wallet.mint(&c, &a, u64::MAX));
    assert_eq!(wallet.total_supply(), 1_000_000_000);
}

#[test]
fn mint_by_the_owner_adds_supply() {
    let a = numbered(1);
    let c = numbered(3);
    let mut wallet = TokenWallet::new();
    wallet.init(a.clone());
    assert!(wallet.mint(&a, &c, 1000));
    assert_eq!(wallet.balance_of(&c), 1000);
    assert_eq!(wallet.total_supply(), 1_000_001_000);
    assert_eq!(wallet.balance_of(&a), 1_000_000_000);
    assert!(wallet.mint(&a, &a, 7));
    assert_eq!(wallet.balance_of(&a), 1_000_000_007);
    assert_eq!(wallet.total_supply(), 1_000_001_007);
}

#[test]
fn token_info_follows_the_supply() {
    let a = numbered(1);
    let mut wallet = TokenWallet::new();
    assert_eq!(
        wallet.token_info(),
        ("ICP Test Token".to_string(), "ICPT".to_string(), 8, 0)
    );
    wallet.init(a.clone());
    assert_eq!(
        wallet.token_info(),
        ("ICP Test Token".to_string(), "ICPT".to_string(), 8, 1_000_000_000)
    );
    wallet.mint(&a, &numbered(2), 1000);
    wallet.transfer(&a, &numbered(3), 25);
    assert_eq!(
        wallet.token_info(),
        ("ICP Test Token".to_string(), "ICPT".to_string(), DECIMALS, 1_000_001_000)
    );
}

#[test]
fn supply_is_the_sum_of_balances() {
    let accounts = vec![numbered(1), numbered(2), numbered(3), numbered(4)];
    let mut wallet = TokenWallet::new();
    let sum = |wallet: &TokenWallet| -> u64 { accounts.iter().map(|a| wallet.balance_of(a)).sum() };
    assert_eq!(sum(&wallet), wallet.total_supply());
    wallet.init(accounts[0].clone());
    assert_eq!(sum(&wallet), wallet.total_supply());
    assert!(wallet.transfer(&accounts[0], &accounts[1], 600));
    assert_eq!(sum(&wallet), wallet.total_supply());
    assert!(wallet.transfer(&accounts[1], &accounts[2], 600));
    assert_eq!(sum(&wallet), wallet.total_supply());
    assert!(!wallet.transfer(&accounts[1], &accounts[2], 1));
    assert_eq!(sum(&wallet), wallet.total_supply());
    assert!(wallet.mint(&accounts[0], &accounts[3], 40));
    assert_eq!(sum(&wallet), wallet.total_supply());
    assert!(!wallet.mint(&accounts[3], &accounts[3], 40));
    assert_eq!(sum(&wallet), wallet.total_supply());
    assert!(wallet.transfer(&accounts[2], &accounts[2], 600));
    assert!(wallet.transfer(&accounts[3], &accounts[0], 15));
    assert_eq!(sum(&wallet), wallet.total_supply());
    assert_eq!(wallet.total_supply(), 1_000_000_040);
    assert_eq!(wallet.balance_of(&accounts[0]), 999_999_415);
    assert_eq!(wallet.balance_of(&accounts[1]), 0);
    assert_eq!(wallet.balance_of(&accounts[2]), 600);
    assert_eq!(wallet.balance_of(&accounts[3]), 25);
}

#[test]
fn transfer_of_nothing_is_accepted_and_changes_nothing() {
    let a = numbered(1);
    let b = numbered(2);
    let c = numbered(3);
    let mut wallet = wallet_with_balance(&a, 70);
    assert!(wallet.transfer(&a, &b, 0));
    assert!(wallet.transfer(&b, &a, 0));
    assert!(wallet.transfer(&c, &c, 0));
    assert!(wallet.transfer(&c, &b, 0));
    assert_eq!(wallet.balance_of(&a), 70);
    assert_eq!(wallet.balance_of(&b), 0);
    assert_eq!(wallet.balance_of(&c), 0);
    assert_eq!(wallet.balance_of(&numbered(0)), 999_999_930);
    assert_eq!(wallet.total_supply(), 1_000_000_000);
}

#[test]
fn transfer_to_oneself_changes_nothing() {
    let a = numbered(1);
    let mut wallet = wallet_with_balance(&a, 70);
    assert!(wallet.transfer(&a, &a, 1));
    assert_eq!(wallet.balance_of(&a), 70);
    assert!(wallet.transfer(&a, &a, 70));
    assert_eq!(wallet.balance_of(&a), 70);
    assert!(!wallet.transfer(&a, &a, 71));
    assert_eq!(wallet.balance_of(&a), 70);
    assert_eq!(wallet.total_supply(), 1_000_000_000);
}

#[test]
fn uninitialized_wallet_holds_nothing_and_mints_nothing() {
    let a = numbered(1);
    let b = numbered(2);
    let anonymous = AccountId::anonymous();
    let mut wallet = TokenWallet::new();
    assert!(!wallet.is_initialized());
    assert_eq!(wallet.owner(), &anonymous);
    assert_eq!(wallet.total_supply(), 0);
    assert_eq!(wallet.balance_of(&a), 0);
    assert_eq!(wallet.balance_of(&anonymous), 0);
    assert!(!wallet.transfer(&a, &b, 1));
    assert!(wallet.transfer(&a, &b, 0));
    assert!(!wallet.mint(&a, &b, 10));
    assert!(!wallet.mint(&anonymous, &b, 10));
    assert!(!wallet.mint(&anonymous, &anonymous, 0));
    assert_eq!(wallet.total_supply(), 0);
    assert_eq!(wallet.balance_of(&b), 0);
    assert!(!wallet.is_initialized());
}

#[test]
fn second_init_is_declined_and_changes_nothing() {
    let a = numbered(1);
    let b = numbered(2);
    let mut wallet = TokenWallet::new();
    assert!(wallet.init(a.clone()));
    assert!(wallet.transfer(&a, &b, 300));
    assert!(!wallet.init(b.clone()));
    assert!(!wallet.init(a.clone()));
    assert_eq!(wallet.owner(), &a);
    assert_eq!(wallet.balance_of(&a), 999_999_700);
    assert_eq!(wallet.balance_of(&b), 300);
    assert_eq!(wallet.total_supply(), 1_000_000_000);
    assert!(!wallet.mint(&b, &b, 1));
    assert!(wallet.mint(&a, &b, 1));
}

#[test]
fn mint_past_the_largest_supply_is_declined() {
    let a = numbered(1);
    let b = numbered(2);
    let mut wallet = TokenWallet::new();
    wallet.init(a.clone());
    assert!(!wallet.mint(&a, &b, u64::MAX));
    assert!(!wallet.mint(&a, &b, u64::MAX - 999_999_999));
    assert_eq!(wallet.balance_of(&b), 0);
    assert_eq!(wallet.total_supply(), 1_000_000_000);
    assert!(wallet.mint(&a, &b, u64::MAX - 1_000_000_000));
    assert_eq!(wallet.balance_of(&b), u64::MAX - 1_000_000_000);
    assert_eq!(wallet.total_supply(), u64::MAX);
    assert!(!wallet.mint(&a, &b, 1));
    assert!(!wallet.mint(&a, &a, 1));
    assert!(wallet.mint(&a, &a, 0));
    assert_eq!(wallet.total_supply(), u64::MAX);
    assert!(wallet.transfer(&b, &a, u64::MAX - 1_000_000_000));
    assert_eq!(wallet.balance_of(&a), u64::MAX);
    assert_eq!(wallet.balance_of(&b), 0);
}

#[test]
fn transfer_to_a_new_account_creates_its_balance() {
    let a = numbered(1);
    let fresh = account(Principal::from_text("aaaaa-aa").unwrap());
    let mut wallet = TokenWallet::new();
    wallet.init(a.clone());
    assert_eq!(wallet.balance_of(&fresh), 0);
    assert!(wallet.transfer(&a, &fresh, 1_000_000_000));
    assert_eq!(wallet.balance_of(&fresh), 1_000_000_000);
    assert_eq!(wallet.balance_of(&a), 0);
    assert!(!wallet.transfer(&a, &fresh, 1));
    assert!(wallet.mint(&a, &a, 2));
    assert_eq!(wallet.balance_of(&a), 2);
}
