//! A collateralized-lending ledger: users sign up, deposit stablecoin-equivalent
//! tokens, post collateral, borrow against that collateral at a 150%
//! collateralization ratio, repay, and withdraw collateral. Risk-sensitive
//! operations follow a two-phase protocol: a tentative commit under the policy
//! check, then an advisory risk verdict that either lets the commit stand or
//! reverts exactly the tentative delta. The external risk service and token
//! contracts are collaborators of the surrounding application; this crate owns
//! the ledger state and every decision about it.

use vstd::prelude::*;

pub mod store;
pub mod oracle;
pub mod policy;
pub mod risk;
pub mod pool;
pub mod crowdfund;
pub mod dip20;

verus! {

/// Human-readable version tag reported by the pool service.
pub fn version() -> (v: String)
    ensures
        v@ == "DeFi Pool Backend v1.0.0"@,
{
    "DeFi Pool Backend v1.0.0".to_owned()
}

} // verus!
