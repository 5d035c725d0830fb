//! Ledger operations: signup, deposits, borrows, repayments, collateral,
//! the two-phase risk protocol and the mint log.

use defi_pool::pool::{DeFiPool, Phase1Result};
use defi_pool::risk::RiskResponse;
use defi_pool::version;

fn s(x: &str) -> String {
    x.to_string()
}

fn fresh_pool() -> DeFiPool {
    let mut pool = DeFiPool::new();
    assert!(pool.init_tokens());
    pool
}

#[test]
fn version_string() {
    assert_eq!(version(), "DeFi Pool Backend v1.0.0");
}

#[test]
fn signup_succeeds_once() {
    let mut pool = DeFiPool::new();
    assert!(pool.signup(&s("alice"), &s("Alice")));
    assert!(!pool.signup(&s("alice"), &s("Someone Else")));
    assert_eq!(pool.get_username(&s("alice")), Some(s("Alice")));
    assert_eq!(pool.list_users(), vec![s("alice")]);
    assert_eq!(pool.get_balance(&s("alice"), &s("ICP")), 0);
}

#[test]
fn init_tokens_runs_once() {
    let mut pool = DeFiPool::new();
    assert!(pool.init_tokens());
    assert!(!pool.init_tokens());
    assert_eq!(
        pool.supported_tokens(),
        vec![s("ICP"), s("FAKEBTC"), s("FAKEETH")]
    );
    assert_eq!(
        pool.token_canister(&s("ICP")),
        Some(s("ulvla-h7777-77774-qaacq-cai"))
    );
    assert_eq!(pool.token_canister(&s("FAKEBTC")), None);
}

#[test]
fn add_token_needs_registry_entry() {
    let mut pool = fresh_pool();
    assert!(!pool.add_token(&s("DOGE"), &s("doge-canister")));
    assert!(pool.add_token(&s("FAKEBTC"), &s("btc-canister")));
    assert_eq!(pool.token_canister(&s("FAKEBTC")), Some(s("btc-canister")));
}

#[test]
fn deposit_then_repay_round_trip() {
    let mut pool = fresh_pool();
    assert!(pool.signup(&s("alice"), &s("Alice")));
    assert!(pool.deposit_commit(&s("alice"), &s("ICP"), 500));
    assert_eq!(pool.get_balance(&s("alice"), &s("ICP")), 500);
    assert!(pool.repay(&s("alice"), &s("ICP"), 500));
    assert_eq!(pool.get_balance(&s("alice"), &s("ICP")), 0);
}

#[test]
fn repay_cannot_exceed_balance() {
    let mut pool = fresh_pool();
    assert!(pool.signup(&s("alice"), &s("Alice")));
    assert!(pool.deposit_commit(&s("alice"), &s("ICP"), 100));
    assert!(!pool.repay(&s("alice"), &s("ICP"), 101));
    assert_eq!(pool.get_balance(&s("alice"), &s("ICP")), 100);
    assert!(!pool.repay(&s("nobody"), &s("ICP"), 1));
}

#[test]
fn deposit_needs_signup_and_registered_token() {
    let mut pool = fresh_pool();
    assert!(!pool.deposit_commit(&s("ghost"), &s("ICP"), 10));
    assert!(pool.signup(&s("alice"), &s("Alice")));
    assert!(!pool.deposit_commit(&s("alice"), &s("DOGE"), 10));
    assert!(pool.deposit_commit(&s("alice"), &s("ICP"), 10));
}

#[test]
fn fail_open_scenario() {
    // Fresh account, collateral 150, borrow 100 with no risk service set:
    // both succeed without any external call; one more unit must fail the
    // policy check (150 < 151 required).
    let mut pool = fresh_pool();
    assert!(pool.signup(&s("alice"), &s("Alice")));
    match pool.deposit_collateral_phase1(&s("alice"), &s("ICP"), 150) {
        Phase1Result::Validated(req) => assert!(req.is_none()),
        Phase1Result::Rejected => panic!("collateral deposit rejected"),
    }
    match pool.borrow_phase1(&s("alice"), &s("ICP"), 100) {
        Phase1Result::Validated(req) => assert!(req.is_none()),
        Phase1Result::Rejected => panic!("borrow rejected"),
    }
    assert_eq!(pool.get_balance(&s("alice"), &s("ICP")), 100);
    let coll = pool.get_user_collateral(&s("alice")).unwrap();
    assert_eq!(coll.len(), 1);
    assert_eq!(coll[0].token, s("ICP"));
    assert_eq!(coll[0].amount, 150);
    match pool.borrow_phase1(&s("alice"), &s("ICP"), 1) {
        Phase1Result::Rejected => {}
        Phase1Result::Validated(_) => panic!("borrow past the ratio must be rejected"),
    }
    assert_eq!(pool.get_balance(&s("alice"), &s("ICP")), 100);
}

#[test]
fn borrow_needs_collateral() {
    let mut pool = fresh_pool();
    assert!(pool.signup(&s("alice"), &s("Alice")));
    match pool.borrow_phase1(&s("alice"), &s("ICP"), 1) {
        Phase1Result::Rejected => {}
        Phase1Result::Validated(_) => panic!("uncollateralized borrow must be rejected"),
    }
}

#[test]
fn required_collateral_truncates() {
    // FAKEBTC is worth 50000: collateral 2 gives 100000 USD headroom.
    // required(66666) = 99999, required(66667) = 100000 (truncated),
    // required(66668) = 100002: the first two borrows pass, the third fails.
    let mut pool = fresh_pool();
    assert!(pool.signup(&s("alice"), &s("Alice")));
    match pool.deposit_collateral_phase1(&s("alice"), &s("FAKEBTC"), 2) {
        Phase1Result::Validated(req) => assert!(req.is_none()),
        Phase1Result::Rejected => panic!("collateral deposit rejected"),
    }
    match pool.borrow_phase1(&s("alice"), &s("ICP"), 66666) {
        Phase1Result::Validated(_) => {}
        Phase1Result::Rejected => panic!("borrow within the ratio must pass"),
    }
    match pool.borrow_phase1(&s("alice"), &s("ICP"), 1) {
        Phase1Result::Validated(_) => {}
        Phase1Result::Rejected => panic!("truncated requirement still covers this borrow"),
    }
    match pool.borrow_phase1(&s("alice"), &s("ICP"), 1) {
        Phase1Result::Rejected => {}
        Phase1Result::Validated(_) => panic!("borrow past the ratio must be rejected"),
    }
}

#[test]
fn risk_request_reports_position() {
    let mut pool = fresh_pool();
    assert!(pool.signup(&s("alice"), &s("Alice")));
    assert!(pool.set_ai_proxy(&s("proxy-canister")));
    let req = match pool.deposit_collateral_phase1(&s("alice"), &s("ICP"), 150) {
        Phase1Result::Validated(Some(req)) => req,
        _ => panic!("expected a risk request"),
    };
    assert_eq!(req.collateral, 150);
    assert_eq!(req.borrowed, 0);
    assert_eq!(req.deposits, 0);
    assert_eq!(req.volatility, 10); // floor: no deposits to divide by
    assert_eq!(req.credit_score, 700);
    let ok = pool.deposit_collateral_phase3(
        &s("alice"),
        &s("ICP"),
        150,
        &Some(RiskResponse { risk_score: 0, advice: s("Safe to borrow") }),
    );
    assert!(ok);
    let req2 = match pool.borrow_phase1(&s("alice"), &s("ICP"), 100) {
        Phase1Result::Validated(Some(req)) => req,
        _ => panic!("expected a risk request"),
    };
    assert_eq!(req2.collateral, 150);
    assert_eq!(req2.borrowed, 100);
    assert_eq!(req2.deposits, 100);
    // borrowed/deposits ratio 1.0, scaled to 1000, clamped to the band top
    assert_eq!(req2.volatility, 500);
}

#[test]
fn high_risk_verdict_reverts_borrow() {
    let mut pool = fresh_pool();
    assert!(pool.signup(&s("alice"), &s("Alice")));
    assert!(pool.set_ai_proxy(&s("proxy-canister")));
    match pool.deposit_collateral_phase1(&s("alice"), &s("ICP"), 150) {
        Phase1Result::Validated(Some(_)) => {}
        _ => panic!("expected a risk request"),
    }
    pool.deposit_collateral_phase3(&s("alice"), &s("ICP"), 150, &None);
    let logs_before = pool.get_mint_logs().len();
    match pool.borrow_phase1(&s("alice"), &s("ICP"), 100) {
        Phase1Result::Validated(Some(_)) => {}
        _ => panic!("expected a risk request"),
    }
    // tentative state is visible while the verdict is pending
    assert_eq!(pool.get_balance(&s("alice"), &s("ICP")), 100);
    let committed = pool.borrow_phase3(
        &s("alice"),
        &s("ICP"),
        100,
        &Some(RiskResponse { risk_score: 1, advice: s("High risk") }),
    );
    assert!(!committed);
    assert_eq!(pool.get_balance(&s("alice"), &s("ICP")), 0);
    assert_eq!(pool.get_mint_logs().len(), logs_before);
    let account = pool.get_user_account(&s("alice")).unwrap();
    assert_eq!(account.risk_advice, Some(s("High risk")));
}

#[test]
fn unreachable_service_commits_and_records_advice() {
    let mut pool = fresh_pool();
    assert!(pool.signup(&s("alice"), &s("Alice")));
    assert!(pool.set_ai_proxy(&s("proxy-canister")));
    match pool.deposit_collateral_phase1(&s("alice"), &s("ICP"), 150) {
        Phase1Result::Validated(Some(_)) => {}
        _ => panic!("expected a risk request"),
    }
    pool.deposit_collateral_phase3(&s("alice"), &s("ICP"), 150, &None);
    match pool.borrow_phase1(&s("alice"), &s("ICP"), 100) {
        Phase1Result::Validated(Some(_)) => {}
        _ => panic!("expected a risk request"),
    }
    let committed = pool.borrow_phase3(&s("alice"), &s("ICP"), 100, &None);
    assert!(committed);
    assert_eq!(pool.get_balance(&s("alice"), &s("ICP")), 100);
    let account = pool.get_user_account(&s("alice")).unwrap();
    assert_eq!(account.risk_advice, Some(s("AI service unavailable")));
}

#[test]
fn high_risk_verdict_reverts_collateral_deposit() {
    let mut pool = fresh_pool();
    assert!(pool.signup(&s("alice"), &s("Alice")));
    assert!(pool.set_ai_proxy(&s("proxy-canister")));
    match pool.deposit_collateral_phase1(&s("alice"), &s("ICP"), 80) {
        Phase1Result::Validated(Some(_)) => {}
        _ => panic!("expected a risk request"),
    }
    let committed = pool.deposit_collateral_phase3(
        &s("alice"),
        &s("ICP"),
        80,
        &Some(RiskResponse { risk_score: 1, advice: s("High risk") }),
    );
    assert!(!committed);
    let coll = pool.get_user_collateral(&s("alice")).unwrap();
    assert_eq!(coll.len(), 1);
    assert_eq!(coll[0].amount, 0);
}

#[test]
fn withdraw_collateral_keeps_ratio() {
    let mut pool = fresh_pool();
    assert!(pool.signup(&s("alice"), &s("Alice")));
    match pool.deposit_collateral_phase1(&s("alice"), &s("ICP"), 150) {
        Phase1Result::Validated(None) => {}
        _ => panic!("fail-open commit expected"),
    }
    match pool.borrow_phase1(&s("alice"), &s("ICP"), 100) {
        Phase1Result::Validated(None) => {}
        _ => panic!("fail-open commit expected"),
    }
    // 150 is exactly the required collateral for a borrow of 100
    assert!(!pool.withdraw_collateral(&s("alice"), &s("ICP"), 1));
    assert!(pool.repay(&s("alice"), &s("ICP"), 100));
    assert!(!pool.withdraw_collateral(&s("alice"), &s("ICP"), 151));
    assert!(pool.withdraw_collateral(&s("alice"), &s("ICP"), 150));
    let coll = pool.get_user_collateral(&s("alice")).unwrap();
    assert_eq!(coll[0].amount, 0);
}

#[test]
fn mint_log_is_append_only_and_filterable() {
    let mut pool = fresh_pool();
    assert!(pool.signup(&s("alice"), &s("Alice")));
    assert!(pool.signup(&s("bob"), &s("Bob")));
    assert!(pool.deposit_commit(&s("alice"), &s("ICP"), 500));
    assert!(pool.deposit_commit(&s("bob"), &s("ICP"), 70));
    pool.log_mint(&s("alice"), &s("FAKEETH"), 3);
    assert_eq!(
        pool.get_mint_logs(),
        vec![
            (s("alice"), s("ICP"), 500),
            (s("bob"), s("ICP"), 70),
            (s("alice"), s("FAKEETH"), 3),
        ]
    );
    assert_eq!(
        pool.get_per_user_mint_logs(&s("alice")),
        vec![(s("ICP"), 500), (s("FAKEETH"), 3)]
    );
    assert_eq!(pool.get_per_user_mint_logs(&s("bob")), vec![(s("ICP"), 70)]);
    assert_eq!(pool.get_per_user_mint_logs(&s("carol")), vec![]);
}

#[test]
fn stable_token_aggregates_everyone() {
    let mut pool = fresh_pool();
    assert!(pool.signup(&s("alice"), &s("Alice")));
    assert!(pool.signup(&s("bob"), &s("Bob")));
    assert!(pool.deposit_commit(&s("alice"), &s("ICP"), 100));
    assert!(pool.deposit_commit(&s("bob"), &s("FAKEETH"), 200));
    assert_eq!(pool.compute_total_supply(), 300);
    let st = pool.get_stable_token();
    assert_eq!(st.total_supply, 300);
    assert_eq!(st.balances.len(), 2);
    assert_eq!(st.balances[0].token, s("ICP"));
    assert_eq!(st.balances[0].value, 100);
    assert_eq!(st.balances[1].token, s("FAKEETH"));
    assert_eq!(st.balances[1].value, 200);
}

#[test]
fn balance_overflow_is_rejected() {
    let mut pool = fresh_pool();
    assert!(pool.signup(&s("alice"), &s("Alice")));
    assert!(pool.deposit_commit(&s("alice"), &s("ICP"), u64::MAX));
    assert!(!pool.deposit_commit(&s("alice"), &s("ICP"), 1));
    assert_eq!(pool.get_balance(&s("alice"), &s("ICP")), u64::MAX);
}

#[test]
fn queries_on_unknown_user_are_empty() {
    let pool = fresh_pool();
    assert_eq!(pool.get_username(&s("ghost")), None);
    assert!(pool.get_user_account(&s("ghost")).is_none());
    assert!(pool.get_user_collateral(&s("ghost")).is_none());
    assert_eq!(pool.get_user_balances(&s("ghost")).len(), 0);
    assert_eq!(pool.get_balance(&s("ghost"), &s("ICP")), 0);
}
