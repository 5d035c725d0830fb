//! The crowdfunding sub-ledger: totals per token and per-user accounting.

use defi_pool::crowdfund::CrowdfundingPool;

fn s(x: &str) -> String {
    x.to_string()
}

#[test]
fn contributions_accumulate() {
    let mut cf = CrowdfundingPool::new();
    assert!(cf.contribute(&s("alice"), &s("ICP"), 50));
    assert!(cf.contribute(&s("alice"), &s("ICP"), 50));
    assert_eq!(cf.fund_total(&s("ICP")), 100);
    let entries = cf.get_crowdfund_status();
    assert_eq!(entries.len(), 1);
    assert_eq!(entries[0].user, s("alice"));
    assert_eq!(entries[0].token, s("ICP"));
    assert_eq!(entries[0].amount, 100);
}

#[test]
fn contributors_are_kept_apart() {
    let mut cf = CrowdfundingPool::new();
    assert!(cf.contribute(&s("alice"), &s("ICP"), 30));
    assert!(cf.contribute(&s("bob"), &s("ICP"), 12));
    assert!(cf.contribute(&s("bob"), &s("FAKEETH"), 7));
    assert_eq!(cf.fund_total(&s("ICP")), 42);
    assert_eq!(cf.fund_total(&s("FAKEETH")), 7);
    assert_eq!(cf.fund_total(&s("DOGE")), 0);
    let entries = cf.get_crowdfund_status();
    assert_eq!(entries.len(), 3);
    assert_eq!(entries[0].user, s("alice"));
    assert_eq!(entries[0].amount, 30);
    assert_eq!(entries[1].user, s("bob"));
    assert_eq!(entries[1].token, s("ICP"));
    assert_eq!(entries[1].amount, 12);
    assert_eq!(entries[2].token, s("FAKEETH"));
    assert_eq!(entries[2].amount, 7);
}

#[test]
fn contribution_overflow_is_atomic() {
    let mut cf = CrowdfundingPool::new();
    assert!(cf.contribute(&s("alice"), &s("ICP"), u64::MAX));
    assert!(!cf.contribute(&s("bob"), &s("ICP"), 1));
    assert_eq!(cf.fund_total(&s("ICP")), u64::MAX);
    let entries = cf.get_crowdfund_status();
    assert_eq!(entries.len(), 1);
}
