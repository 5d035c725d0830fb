//! Price oracle: a fixed lookup table from token identifier to USD unit price.
//! Unknown tokens default to a unit price of 1.

use vstd::prelude::*;

verus! {

/// Fixed USD unit price of a token; tokens outside the table are worth 1.
pub open spec fn price_spec(token: Seq<char>) -> nat {
    if token == "ICP"@ {
        1
    } else if token == "FAKEBTC"@ {
        50000
    } else if token == "FAKEETH"@ {
        3000
    } else {
        1
    }
}

/// Largest unit price the oracle can ever report.
pub open spec fn max_price() -> nat {
    50000
}

pub proof fn lemma_price_bounded(token: Seq<char>)
    ensures
        1 <= price_spec(token) <= max_price(),
{
}

/// Fixed USD unit price of a token.
pub fn token_price(token: &String) -> (price: u64)
    ensures
        price as nat == price_spec(token@),
{
    let icp: String = "ICP".to_owned();
    let btc: String = "FAKEBTC".to_owned();
    let eth: String = "FAKEETH".to_owned();
    if *token == icp {
        1
    } else if *token == btc {
        50000
    } else if *token == eth {
        3000
    } else {
        1
    }
}

} // verus!
