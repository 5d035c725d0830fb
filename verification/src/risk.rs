//! Risk gate: builds the request sent to the external risk service and
//! interprets its verdict. The service is advisory: only an explicit
//! high-risk verdict reverts an operation, and its absence blocks nothing.

use vstd::prelude::*;

verus! {

/// Request payload for the external risk service. All positions are integer
/// USD; `volatility` is the borrowed/deposits ratio scaled by 1000 and
/// clamped to the band the service expects.
#[derive(Clone, Copy, PartialEq, Eq, Structural)]
pub struct RiskRequest {
    pub volatility: u128,
    pub collateral: u128,
    pub borrowed: u128,
    pub deposits: u128,
    pub credit_score: u64,
}

/// Response payload from the external risk service.
pub struct RiskResponse {
    /// 0 = safe, 1 = high risk.
    pub risk_score: u8,
    pub advice: String,
}

/// Smallest volatility signal the service accepts; also the floor used when
/// there are no deposits to divide by.
pub open spec fn min_volatility() -> nat {
    10
}

/// Largest volatility signal the service accepts.
pub open spec fn max_volatility() -> nat {
    500
}

/// Borrowed/deposits ratio scaled by 1000, rounded to the nearest integer,
/// clamped to the service's band; the floor value when deposits are zero.
pub open spec fn volatility_spec(borrowed_usd: nat, deposits_usd: nat) -> nat {
    let raw = if deposits_usd > 0 {
        (1000 * borrowed_usd + deposits_usd / 2) / deposits_usd
    } else {
        min_volatility()
    };
    if raw < min_volatility() {
        min_volatility()
    } else if raw > max_volatility() {
        max_volatility()
    } else {
        raw
    }
}

/// The volatility signal always lies in the service's band.
pub proof fn lemma_volatility_in_band(borrowed_usd: nat, deposits_usd: nat)
    ensures
        min_volatility() <= volatility_spec(borrowed_usd, deposits_usd) <= max_volatility(),
{
}

/// Borrowed/deposits ratio scaled to the integer domain of the risk service.
pub fn scaled_volatility(borrowed_usd: u128, deposits_usd: u128) -> (v: u128)
    requires
        1000 * borrowed_usd + deposits_usd / 2 <= u128::MAX,
    ensures
        v as nat == volatility_spec(borrowed_usd as nat, deposits_usd as nat),
{
    let raw: u128 = if deposits_usd > 0 {
        (1000 * borrowed_usd + deposits_usd / 2) / deposits_usd
    } else {
        10
    };
    if raw < 10 {
        10
    } else if raw > 500 {
        500
    } else {
        raw
    }
}

/// Whether a verdict from the service is an explicit high-risk verdict.
/// An absent response (service unset, unreachable, or erroring) is not:
/// only an explicit verdict can revert an operation.
pub open spec fn is_high_risk(response: Option<RiskResponse>) -> bool {
    match response {
        Some(r) => r.risk_score == 1,
        None => false,
    }
}

/// Advice text recorded on the account for a verdict; a fixed message when
/// the service did not answer.
pub open spec fn advice_text(response: Option<RiskResponse>) -> Seq<char> {
    match response {
        Some(r) => r.advice@,
        None => "AI service unavailable"@,
    }
}

} // verus!
