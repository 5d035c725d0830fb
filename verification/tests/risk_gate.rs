//! The risk gate's integer signal: the borrowed/deposits ratio scaled by
//! 1000, rounded to nearest, clamped to the service's band; and the
//! collateral policy formula.

use defi_pool::policy::required_collateral;
use defi_pool::risk::scaled_volatility;

#[test]
fn volatility_scales_and_rounds() {
    assert_eq!(scaled_volatility(1, 4), 250);
    assert_eq!(scaled_volatility(1, 3), 333);
    assert_eq!(scaled_volatility(1, 7), 143);
    assert_eq!(scaled_volatility(3, 10), 300);
}

#[test]
fn volatility_clamps_to_band() {
    assert_eq!(scaled_volatility(1, 1), 500);
    assert_eq!(scaled_volatility(1000, 1), 500);
    assert_eq!(scaled_volatility(1, 1000), 10);
    assert_eq!(scaled_volatility(0, 5), 10);
}

#[test]
fn volatility_floor_without_deposits() {
    assert_eq!(scaled_volatility(0, 0), 10);
    assert_eq!(scaled_volatility(123456, 0), 10);
}

#[test]
fn required_collateral_is_150_percent_truncated() {
    assert_eq!(required_collateral(0), 0);
    assert_eq!(required_collateral(1), 1);
    assert_eq!(required_collateral(2), 3);
    assert_eq!(required_collateral(100), 150);
    assert_eq!(required_collateral(101), 151);
    assert_eq!(required_collateral(66667), 100000);
}
