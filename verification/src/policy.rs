//! Collateral policy: 150% collateralization, integer arithmetic with the
//! intermediate ratio truncated toward zero.

use vstd::prelude::*;

verus! {

/// Collateral (in USD) required to carry a borrowed USD position.
pub open spec fn required_collateral_spec(borrowed_usd: nat) -> nat {
    borrowed_usd * 3 / 2
}

/// Requiring collateral is monotone in the borrowed amount.
pub proof fn lemma_required_collateral_monotone(b1: nat, b2: nat)
    requires
        b1 <= b2,
    ensures
        required_collateral_spec(b1) <= required_collateral_spec(b2),
{
    assert(b1 * 3 <= b2 * 3) by (nonlinear_arith)
        requires b1 <= b2;
    vstd::arithmetic::div_mod::lemma_div_is_ordered(b1 * 3 as int, b2 * 3 as int, 2);
}

/// Collateral (in USD) required to carry a borrowed USD position.
pub fn required_collateral(borrowed_usd: u128) -> (r: u128)
    requires
        borrowed_usd * 3 <= u128::MAX,
    ensures
        r as nat == required_collateral_spec(borrowed_usd as nat),
{
    borrowed_usd * 3 / 2
}

/// Whether a post-state with this much collateral may carry this much debt.
pub open spec fn ratio_ok_spec(collateral_usd: nat, borrowed_usd: nat) -> bool {
    collateral_usd >= required_collateral_spec(borrowed_usd)
}

} // verus!
