//! The token contract's ledger: balances, allowances, minting and the
//! supply/balances conservation.

use defi_pool::dip20::DIP20Token;

fn s(x: &str) -> String {
    x.to_string()
}

#[test]
fn token_identity() {
    let token = DIP20Token::new();
    assert_eq!(token.name(), s("ICP Token"));
    assert_eq!(token.symbol(), s("ICP"));
    assert_eq!(token.decimals(), 8);
    assert_eq!(token.total_supply(), 0);
    assert_eq!(token.balanceOf(&s("alice")), 0);
}

#[test]
fn mint_grows_supply_with_balance() {
    let mut token = DIP20Token::new();
    assert!(token.mint(&s("alice"), 1000));
    assert_eq!(token.balanceOf(&s("alice")), 1000);
    assert_eq!(token.total_supply(), 1000);
    assert!(token.mint(&s("bob"), 50));
    assert_eq!(token.total_supply(), 1050);
}

#[test]
fn mint_rejects_balance_overflow() {
    let mut token = DIP20Token::new();
    assert!(token.mint(&s("alice"), u64::MAX));
    assert!(!token.mint(&s("alice"), 1));
    assert_eq!(token.balanceOf(&s("alice")), u64::MAX);
    assert_eq!(token.total_supply(), u64::MAX as u128);
}

#[test]
fn transfer_moves_funds_and_keeps_supply() {
    let mut token = DIP20Token::new();
    assert!(token.mint(&s("alice"), 1000));
    assert!(token.transfer(&s("alice"), &s("bob"), 300));
    assert_eq!(token.balanceOf(&s("alice")), 700);
    assert_eq!(token.balanceOf(&s("bob")), 300);
    assert_eq!(token.total_supply(), 1000);
    assert!(!token.transfer(&s("alice"), &s("bob"), 701));
    assert_eq!(token.balanceOf(&s("alice")), 700);
}

#[test]
fn self_transfer_changes_nothing() {
    let mut token = DIP20Token::new();
    assert!(token.mint(&s("alice"), 100));
    assert!(token.transfer(&s("alice"), &s("alice"), 60));
    assert_eq!(token.balanceOf(&s("alice")), 100);
    assert!(!token.transfer(&s("alice"), &s("alice"), 101));
}

#[test]
fn approve_then_transfer_from() {
    let mut token = DIP20Token::new();
    assert!(token.mint(&s("alice"), 1000));
    assert!(token.approve(&s("alice"), &s("bob"), 500));
    assert_eq!(token.allowance(&s("alice"), &s("bob")), 500);
    assert!(token.transferFrom(&s("bob"), &s("alice"), &s("carol"), 200));
    assert_eq!(token.balanceOf(&s("alice")), 800);
    assert_eq!(token.balanceOf(&s("carol")), 200);
    assert_eq!(token.allowance(&s("alice"), &s("bob")), 300);
    assert!(!token.transferFrom(&s("bob"), &s("alice"), &s("carol"), 400));
    assert_eq!(token.allowance(&s("alice"), &s("bob")), 300);
}

#[test]
fn transfer_from_needs_funds_too() {
    let mut token = DIP20Token::new();
    assert!(token.mint(&s("alice"), 100));
    assert!(token.approve(&s("alice"), &s("bob"), 1000));
    assert!(!token.transferFrom(&s("bob"), &s("alice"), &s("carol"), 101));
    assert_eq!(token.balanceOf(&s("alice")), 100);
    assert_eq!(token.allowance(&s("alice"), &s("bob")), 1000);
}

#[test]
fn approve_overwrites() {
    let mut token = DIP20Token::new();
    assert!(token.approve(&s("alice"), &s("bob"), 500));
    assert!(token.approve(&s("alice"), &s("bob"), 20));
    assert_eq!(token.allowance(&s("alice"), &s("bob")), 20);
    assert_eq!(token.allowance(&s("bob"), &s("alice")), 0);
}

#[test]
fn set_pool_canister_accepts() {
    let mut token = DIP20Token::new();
    assert!(token.set_pool_canister(&s("pool-canister")));
}
