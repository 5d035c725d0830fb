//! The pool ledger and its transition engine: signup, deposits, borrows,
//! repayments, collateral management and the mint audit log, with the
//! two-phase (tentative-commit / risk-verdict / commit-or-revert) protocol
//! for risk-sensitive operations.

use vstd::prelude::*;
use crate::store::{
    amap_find, amap_has, amap_idx, amap_uniq, amap_val, lemma_amap_idx_props,
    lemma_amap_len_bound, lemma_amap_val_push_new, lemma_amap_val_update, lemma_sum_bound_from,
    lemma_usd_bound_from, sum_total, sum_value, tmap_add, tmap_clone, tmap_get, tmap_read,
    tmap_sub, token_listed, usd_total, usd_value,
};
use crate::oracle::{lemma_price_bounded, max_price, price_spec, token_price};
use crate::policy::{
    lemma_required_collateral_monotone, ratio_ok_spec, required_collateral,
    required_collateral_spec,
};
use crate::risk::{
    advice_text, is_high_risk, scaled_volatility, volatility_spec, RiskRequest, RiskResponse,
};

verus! {

/// Credit score given to every account at signup.
pub const DEFAULT_CREDIT_SCORE: u64 = 700;

/// One user's ledger record: stablecoin balances and collateral per token,
/// plus the signup-time credit score and the last risk advice received.
pub struct UserAccount {
    /// Stablecoin-equivalent balance per token; deposits and borrows both
    /// credit this map, repayments debit it.
    pub balances: Vec<(String, u64)>,
    /// Posted collateral per token.
    pub collateral: Vec<(String, u64)>,
    pub credit_score: u64,
    /// Last human-readable verdict from the risk service.
    pub risk_advice: Option<String>,
    pub username: Option<String>,
}

/// Balance entry for a specific token.
pub struct StableBalanceEntry {
    pub token: String,
    pub value: u64,
}

/// Collateral entry for a specific token.
pub struct CollateralEntry {
    pub token: String,
    pub amount: u64,
}

/// A caller's borrow order: which token, and how much.
pub struct BorrowRequest {
    pub token: String,
    pub amount: u64,
}

/// Aggregated stablecoin state across all users.
pub struct StableToken {
    pub total_supply: u128,
    pub balances: Vec<StableBalanceEntry>,
}

/// Outcome of the first, synchronous phase of a risk-sensitive operation.
pub enum Phase1Result {
    /// The policy check failed; nothing was mutated and no external call
    /// is to be made.
    Rejected,
    /// The tentative state is committed. `Some(request)` asks the caller to
    /// consult the risk service and come back with the response; `None`
    /// means no risk service is configured and the operation is complete.
    Validated(Option<RiskRequest>),
}

/// The pool ledger.
pub struct DeFiPool {
    users: Vec<(String, UserAccount)>,
    supported_tokens: Vec<String>,
    token_canisters: Vec<(String, String)>,
    mint_logs: Vec<(String, String, u64)>,
    risk_service: Option<String>,
}

/// The registry never grows past the fixed token set established at
/// initialization.
pub open spec fn max_supported_tokens() -> nat {
    3
}

/// Every position a single account can hold, valued at the top oracle price.
pub open spec fn max_account_usd() -> nat {
    max_supported_tokens() * (u64::MAX as nat) * max_price()
}

/// A per-token list of one account: duplicate-free, only supported tokens.
pub open spec fn account_map_wf(s: Seq<(String, u64)>, toks: Seq<String>) -> bool {
    &&& amap_uniq(s)
    &&& forall|i: int| 0 <= i < s.len() ==> token_listed(toks, (#[trigger] s[i]).0@)
}

/// Well-formedness of one account against the token registry.
pub open spec fn account_wf(a: UserAccount, toks: Seq<String>) -> bool {
    &&& account_map_wf(a.balances@, toks)
    &&& account_map_wf(a.collateral@, toks)
}

impl DeFiPool {
    /// Internal invariant: duplicate-free keys everywhere, a bounded token
    /// registry, and every account entry under a registered token.
    pub closed spec fn wf(self) -> bool {
        &&& amap_uniq(self.users@)
        &&& self.supported_tokens@.len() <= max_supported_tokens()
        &&& amap_uniq(self.token_canisters@)
        &&& forall|i: int|
            0 <= i < self.token_canisters@.len() ==> token_listed(
                self.supported_tokens@,
                (#[trigger] self.token_canisters@[i]).0@,
            )
        &&& forall|i: int|
            0 <= i < self.users@.len() ==> account_wf(
                (#[trigger] self.users@[i]).1,
                self.supported_tokens@,
            )
    }

    /// The account stored for a user, if the user has signed up.
    pub closed spec fn account_of(self, u: Seq<char>) -> Option<UserAccount> {
        amap_val(self.users@, u)
    }

    /// Whether the user has signed up.
    pub open spec fn signed_up(self, u: Seq<char>) -> bool {
        self.account_of(u) is Some
    }

    /// Stablecoin balance of a user for a token; zero when absent.
    pub open spec fn balance_of(self, u: Seq<char>, t: Seq<char>) -> nat {
        match self.account_of(u) {
            Some(a) => tmap_get(a.balances@, t),
            None => 0,
        }
    }

    /// Posted collateral of a user for a token; zero when absent.
    pub open spec fn collateral_of(self, u: Seq<char>, t: Seq<char>) -> nat {
        match self.account_of(u) {
            Some(a) => tmap_get(a.collateral@, t),
            None => 0,
        }
    }

    /// USD value of everything the user has borrowed or deposited: the
    /// stablecoin balances are one pot, so this aggregate serves as both the
    /// borrowed and the deposited position of the risk request.
    pub open spec fn borrowed_usd(self, u: Seq<char>) -> nat {
        match self.account_of(u) {
            Some(a) => usd_value(a.balances@),
            None => 0,
        }
    }

    /// USD value of the user's deposits; the same aggregate as
    /// `borrowed_usd`, kept under its own name because the risk request
    /// reports both positions.
    pub open spec fn deposits_usd(self, u: Seq<char>) -> nat {
        self.borrowed_usd(u)
    }

    /// USD value of the user's posted collateral.
    pub open spec fn collateral_usd(self, u: Seq<char>) -> nat {
        match self.account_of(u) {
            Some(a) => usd_value(a.collateral@),
            None => 0,
        }
    }

    /// Credit score of the user; zero when not signed up.
    pub open spec fn credit_score_of(self, u: Seq<char>) -> nat {
        match self.account_of(u) {
            Some(a) => a.credit_score as nat,
            None => 0,
        }
    }

    /// Last risk advice recorded on the account.
    pub open spec fn risk_advice_of(self, u: Seq<char>) -> Option<Seq<char>> {
        match self.account_of(u) {
            Some(a) => match a.risk_advice {
                Some(s) => Some(s@),
                None => None,
            },
            None => None,
        }
    }

    /// Username recorded at signup.
    pub open spec fn username_of(self, u: Seq<char>) -> Option<Seq<char>> {
        match self.account_of(u) {
            Some(a) => match a.username {
                Some(s) => Some(s@),
                None => None,
            },
            None => None,
        }
    }

    /// The supported-token registry.
    pub closed spec fn tokens(self) -> Seq<String> {
        self.supported_tokens@
    }

    /// Whether a token stands in the registry.
    pub open spec fn supported(self, t: Seq<char>) -> bool {
        token_listed(self.tokens(), t)
    }

    /// The token-contract address registered for a token.
    pub closed spec fn canister_addr(self, t: Seq<char>) -> Option<Seq<char>> {
        match amap_val(self.token_canisters@, t) {
            Some(p) => Some(p@),
            None => None,
        }
    }

    /// Whether a token has a registered token-contract address.
    pub open spec fn registered(self, t: Seq<char>) -> bool {
        self.canister_addr(t) is Some
    }

    /// Whether a risk service address is configured.
    pub closed spec fn risk_set(self) -> bool {
        self.risk_service is Some
    }

    /// The configured risk service address.
    pub closed spec fn risk_service_addr(self) -> Option<Seq<char>> {
        match self.risk_service {
            Some(p) => Some(p@),
            None => None,
        }
    }

    /// The append-only mint audit log: (user, token, amount) per mint.
    pub closed spec fn mint_log(self) -> Seq<(String, String, u64)> {
        self.mint_logs@
    }

    /// Whether the user's position satisfies the collateral policy.
    pub open spec fn ratio_ok(self, u: Seq<char>) -> bool {
        ratio_ok_spec(self.collateral_usd(u), self.borrowed_usd(u))
    }
}

/// All ledger views of one user agree between two pool states.
pub open spec fn user_state_eq(p1: DeFiPool, p2: DeFiPool, u: Seq<char>) -> bool {
    p1.account_of(u) == p2.account_of(u)
}

/// Every user but `u` reads the same in both pool states.
pub open spec fn others_unchanged(p1: DeFiPool, p2: DeFiPool, u: Seq<char>) -> bool {
    forall|u2: Seq<char>| u2 != u ==> #[trigger] user_state_eq(p1, p2, u2)
}

/// Registry, token contracts and risk service address agree between two
/// pool states.
pub open spec fn admin_unchanged(p1: DeFiPool, p2: DeFiPool) -> bool {
    &&& p1.tokens() == p2.tokens()
    &&& forall|t: Seq<char>| #[trigger] p1.canister_addr(t) == p2.canister_addr(t)
    &&& p1.risk_set() == p2.risk_set()
    &&& p1.risk_service_addr() == p2.risk_service_addr()
}

impl DeFiPool {
    /// A fresh, empty pool: no users, no registry, no risk service.
    pub fn new() -> (p: DeFiPool)
        ensures
            p.wf(),
            forall|u: Seq<char>| !(#[trigger] p.signed_up(u)),
            forall|t: Seq<char>| !(#[trigger] p.supported(t)),
            forall|t: Seq<char>| (#[trigger] p.canister_addr(t)) is None,
            !p.risk_set(),
            p.mint_log() == Seq::<(String, String, u64)>::empty(),
    {
        let p = DeFiPool {
            users: Vec::new(),
            supported_tokens: Vec::new(),
            token_canisters: Vec::new(),
            mint_logs: Vec::new(),
            risk_service: None,
        };
        p
    }

    /// Whether a token stands in the supported-token registry.
    pub fn is_supported(&self, token: &String) -> (r: bool)
        ensures
            r == self.supported(token@),
    {
        let n: usize = self.supported_tokens.len();
        let mut i: usize = 0;
        while i < n
            invariant
                0 <= i <= n,
                n == self.supported_tokens@.len(),
                forall|j: int| 0 <= j < i ==> (#[trigger] self.supported_tokens@[j])@ != token@,
            decreases n - i,
        {
            if self.supported_tokens[i] == *token {
                return true;
            }
            i = i + 1;
        }
        false
    }

    /// Configure the risk service address; overwrites any earlier address.
    pub fn set_ai_proxy(&mut self, principal: &String) -> (ok: bool)
        requires
            old(self).wf(),
        ensures
            all_ratios_ok(*old(self)) ==> all_ratios_ok(*final(self)),
            final(self).wf(),
            ok,
            final(self).risk_set(),
            final(self).risk_service_addr() == Some(principal@),
            final(self).tokens() == old(self).tokens(),
            forall|t: Seq<char>|
                #[trigger] final(self).canister_addr(t) == old(self).canister_addr(t),
            final(self).mint_log() == old(self).mint_log(),
            forall|u: Seq<char>| #[trigger] user_state_eq(*old(self), *final(self), u),
    {
        self.risk_service = Some(principal.clone());
        proof {
            if all_ratios_ok(*old(self)) {
                assert forall|u: Seq<char>| #[trigger] user_state_eq(*old(self), *self, u) by {}
                lemma_ratios_same_users(*old(self), *self);
            }
        }
        true
    }

    /// Populate the registry on first call: the three supported tokens and
    /// the fixed address of the ICP token contract. A second call finds the
    /// registry non-empty and reports failure.
    pub fn init_tokens(&mut self) -> (ok: bool)
        requires
            old(self).wf(),
        ensures
            all_ratios_ok(*old(self)) ==> all_ratios_ok(*final(self)),
            final(self).wf(),
            ok == (old(self).tokens().len() == 0),
            !ok ==> *final(self) == *old(self),
            ok ==> final(self).tokens().len() == 3 && (final(self).tokens()[0])@ == "ICP"@
                && (final(self).tokens()[1])@ == "FAKEBTC"@ && (final(self).tokens()[2])@
                == "FAKEETH"@,
            ok ==> final(self).supported("ICP"@) && final(self).supported("FAKEBTC"@)
                && final(self).supported("FAKEETH"@),
            ok ==> final(self).canister_addr("ICP"@) == Some("ulvla-h7777-77774-qaacq-cai"@),
            ok ==> final(self).risk_set() == old(self).risk_set(),
            ok ==> final(self).risk_service_addr() == old(self).risk_service_addr(),
            ok ==> final(self).mint_log() == old(self).mint_log(),
            ok ==> forall|u: Seq<char>| #[trigger] user_state_eq(*old(self), *final(self), u),
    {
        if self.supported_tokens.len() > 0 {
            return false;
        }
        proof {
            if self.token_canisters@.len() > 0 {
                assert(token_listed(self.supported_tokens@, self.token_canisters@[0].0@));
                assert(false);
            }
            assert forall|i: int|
                0 <= i < self.users@.len() implies (#[trigger] self.users@[i]).1.balances@.len()
                == 0 && self.users@[i].1.collateral@.len() == 0 by {
                let a = self.users@[i].1;
                if a.balances@.len() > 0 {
                    assert(token_listed(self.supported_tokens@, a.balances@[0].0@));
                    assert(false);
                }
                if a.collateral@.len() > 0 {
                    assert(token_listed(self.supported_tokens@, a.collateral@[0].0@));
                    assert(false);
                }
            }
        }
        self.supported_tokens.push("ICP".to_owned());
        self.supported_tokens.push("FAKEBTC".to_owned());
        self.supported_tokens.push("FAKEETH".to_owned());
        let ghost cans = self.token_canisters@;
        self.token_canisters.push(("ICP".to_owned(), "ulvla-h7777-77774-qaacq-cai".to_owned()));
        proof {
            assert(cans.len() == 0);
            lemma_amap_val_push_new(cans, self.token_canisters@[0]);
            assert(self.supported_tokens@[0]@ == "ICP"@);
            assert(self.supported_tokens@[1]@ == "FAKEBTC"@);
            assert(self.supported_tokens@[2]@ == "FAKEETH"@);
        }
        proof {
            if all_ratios_ok(*old(self)) {
                assert forall|u: Seq<char>| #[trigger] user_state_eq(*old(self), *self, u) by {}
                lemma_ratios_same_users(*old(self), *self);
            }
        }
        true
    }

    /// Register (or overwrite) the token-contract address of a supported
    /// token; fails for a token outside the registry.
    pub fn add_token(&mut self, token: &String, principal: &String) -> (ok: bool)
        requires
            old(self).wf(),
        ensures
            all_ratios_ok(*old(self)) ==> all_ratios_ok(*final(self)),
            final(self).wf(),
            ok == old(self).supported(token@),
            !ok ==> *final(self) == *old(self),
            ok ==> final(self).canister_addr(token@) == Some(principal@),
            ok ==> forall|t: Seq<char>|
                t != token@ ==> #[trigger] final(self).canister_addr(t) == old(self).canister_addr(t),
            ok ==> final(self).tokens() == old(self).tokens(),
            ok ==> final(self).risk_set() == old(self).risk_set(),
            ok ==> final(self).risk_service_addr() == old(self).risk_service_addr(),
            ok ==> final(self).mint_log() == old(self).mint_log(),
            ok ==> forall|u: Seq<char>| #[trigger] user_state_eq(*old(self), *final(self), u),
    {
        if !self.is_supported(token) {
            return false;
        }
        let ghost cans = self.token_canisters@;
        match amap_find(&self.token_canisters, token) {
            Some(i) => {
                let name: String = self.token_canisters[i].0.clone();
                self.token_canisters[i] = (name, principal.clone());
                proof {
                    lemma_amap_val_update(cans, i as int, self.token_canisters@[i as int]);
                }
            },
            None => {
                self.token_canisters.push((token.clone(), principal.clone()));
                proof {
                    lemma_amap_val_push_new(
                        cans,
                        self.token_canisters@[cans.len() as int],
                    );
                }
            },
        }
        proof {
            if all_ratios_ok(*old(self)) {
                assert forall|u: Seq<char>| #[trigger] user_state_eq(*old(self), *self, u) by {}
                lemma_ratios_same_users(*old(self), *self);
            }
        }
        true
    }

    /// Create an account for a new user: zeroed positions, the default
    /// credit score, and the given username. Fails, changing nothing, when
    /// the user has already signed up.
    pub fn signup(&mut self, user: &String, username: &String) -> (ok: bool)
        requires
            old(self).wf(),
        ensures
            all_ratios_ok(*old(self)) ==> all_ratios_ok(*final(self)),
            final(self).wf(),
            ok == !old(self).signed_up(user@),
            !ok ==> *final(self) == *old(self),
            ok ==> final(self).signed_up(user@),
            ok ==> final(self).username_of(user@) == Some(username@),
            ok ==> final(self).credit_score_of(user@) == DEFAULT_CREDIT_SCORE as nat,
            ok ==> final(self).risk_advice_of(user@) is None,
            ok ==> forall|t: Seq<char>| #[trigger] final(self).balance_of(user@, t) == 0,
            ok ==> forall|t: Seq<char>| #[trigger] final(self).collateral_of(user@, t) == 0,
            ok ==> final(self).borrowed_usd(user@) == 0 && final(self).collateral_usd(user@)
                == 0,
            ok ==> others_unchanged(*old(self), *final(self), user@),
            ok ==> admin_unchanged(*old(self), *final(self)),
            ok ==> final(self).mint_log() == old(self).mint_log(),
    {
        match amap_find(&self.users, user) {
            Some(_) => false,
            None => {
                let account = UserAccount {
                    balances: Vec::new(),
                    collateral: Vec::new(),
                    credit_score: DEFAULT_CREDIT_SCORE,
                    risk_advice: None,
                    username: Some(username.clone()),
                };
                let ghost s = self.users@;
                self.users.push((user.clone(), account));
                proof {
                    lemma_amap_val_push_new(s, self.users@[s.len() as int]);
                    if all_ratios_ok(*old(self)) {
                        assert forall|u2: Seq<char>| u2 != user@ implies user_state_eq(
                            *old(self),
                            *self,
                            u2,
                        ) by {
                            assert(amap_val(self.users@, u2) == amap_val(old(self).users@, u2));
                        }
                        assert(self.ratio_ok(user@));
                        lemma_ratios_from_frame(*old(self), *self, user@);
                    }
                }
                true
            },
        }
    }
}

/// USD aggregates of any single account stay under the fixed bound, because
/// an account holds at most one entry per registered token.
proof fn lemma_account_bounds(p: DeFiPool, u: Seq<char>)
    requires
        p.wf(),
    ensures
        p.borrowed_usd(u) <= max_account_usd(),
        p.collateral_usd(u) <= max_account_usd(),
{
    if p.signed_up(u) {
        lemma_amap_idx_props(p.users@, u, 0);
        let i = amap_idx(p.users@, u, 0);
        let a = p.users@[i].1;
        assert(account_wf(a, p.supported_tokens@));
        lemma_amap_len_bound(a.balances@, p.supported_tokens@);
        lemma_usd_bound_from(a.balances@, 0);
        assert(a.balances@.len() * (u64::MAX as nat) * max_price() <= max_supported_tokens() * (
        u64::MAX as nat) * max_price()) by (nonlinear_arith)
            requires
                a.balances@.len() <= max_supported_tokens(),
        ;
        lemma_amap_len_bound(a.collateral@, p.supported_tokens@);
        lemma_usd_bound_from(a.collateral@, 0);
        assert(a.collateral@.len() * (u64::MAX as nat) * max_price() <= max_supported_tokens() * (
        u64::MAX as nat) * max_price()) by (nonlinear_arith)
            requires
                a.collateral@.len() <= max_supported_tokens(),
        ;
    }
}

/// A mutated per-token map stays well-formed when its keys grew by at most
/// one supported token.
proof fn lemma_map_wf_after(
    s1: Seq<(String, u64)>,
    s2: Seq<(String, u64)>,
    toks: Seq<String>,
    key: Seq<char>,
)
    requires
        account_map_wf(s1, toks),
        token_listed(toks, key),
        amap_uniq(s2),
        forall|k: Seq<char>| #[trigger] amap_has(s2, k) ==> amap_has(s1, k) || k == key,
    ensures
        account_map_wf(s2, toks),
{
    assert forall|i: int| 0 <= i < s2.len() implies token_listed(
        toks,
        (#[trigger] s2[i]).0@,
    ) by {
        let k = s2[i].0@;
        lemma_amap_idx_props(s2, k, 0);
        assert(amap_has(s2, k));
        if amap_has(s1, k) {
            lemma_amap_idx_props(s1, k, 0);
            let m = amap_idx(s1, k, 0);
            assert(token_listed(toks, s1[m].0@));
        }
    }
}

/// Whether a risk request reports exactly the given user's position in the
/// given pool state.
pub open spec fn request_matches(rq: RiskRequest, p: DeFiPool, u: Seq<char>) -> bool {
    &&& rq.collateral as nat == p.collateral_usd(u)
    &&& rq.borrowed as nat == p.borrowed_usd(u)
    &&& rq.deposits as nat == p.deposits_usd(u)
    &&& rq.volatility as nat == volatility_spec(p.borrowed_usd(u), p.deposits_usd(u))
    &&& rq.credit_score as nat == p.credit_score_of(u)
}

impl DeFiPool {
    /// The first phase of a borrow accepts exactly these inputs: a
    /// signed-up user, a registered token, a balance that still fits the
    /// amount type, and a post-borrow position meeting the collateral
    /// policy.
    pub open spec fn borrow_ok(self, u: Seq<char>, t: Seq<char>, amount: nat) -> bool {
        &&& self.signed_up(u)
        &&& self.supported(t)
        &&& self.balance_of(u, t) + amount <= u64::MAX as nat
        &&& ratio_ok_spec(self.collateral_usd(u), self.borrowed_usd(u) + amount * price_spec(t))
    }

    /// Phase 1 of a borrow: validate the tentative post-state against the
    /// collateral policy and commit it. When it passes and a risk service
    /// is configured, hand back the request to send; the caller then
    /// resolves the operation through `borrow_phase3`. Without a configured
    /// risk service the committed state stands: absence of the service
    /// never blocks the operation.
    pub fn borrow_phase1(&mut self, user: &String, token: &String, amount: u64) -> (r:
        Phase1Result)
        requires
            old(self).wf(),
        ensures
            all_ratios_ok(*old(self)) ==> all_ratios_ok(*final(self)),
            final(self).wf(),
            (r is Rejected) <==> !old(self).borrow_ok(user@, token@, amount as nat),
            r is Rejected ==> *final(self) == *old(self),
            !(r is Rejected) ==> final(self).balance_of(user@, token@) == old(self).balance_of(
                user@,
                token@,
            ) + amount,
            !(r is Rejected) ==> forall|t: Seq<char>|
                t != token@ ==> #[trigger] final(self).balance_of(user@, t) == old(self).balance_of(user@, t),
            !(r is Rejected) ==> forall|t: Seq<char>|
                #[trigger] final(self).collateral_of(user@, t) == old(self).collateral_of(
                    user@,
                    t,
                ),
            !(r is Rejected) ==> final(self).borrowed_usd(user@) == old(self).borrowed_usd(user@)
                + (amount as nat) * price_spec(token@),
            !(r is Rejected) ==> final(self).collateral_usd(user@) == old(self).collateral_usd(
                user@,
            ),
            !(r is Rejected) ==> final(self).credit_score_of(user@) == old(self).credit_score_of(
                user@,
            ) && final(self).risk_advice_of(user@) == old(self).risk_advice_of(user@) && final(self).username_of(user@) == old(self).username_of(user@) && final(self).signed_up(user@),
            !(r is Rejected) ==> final(self).ratio_ok(user@),
            !(r is Rejected) ==> others_unchanged(*old(self), *final(self), user@),
            !(r is Rejected) ==> admin_unchanged(*old(self), *final(self)),
            !(r is Rejected) ==> final(self).mint_log() == old(self).mint_log(),
            r matches Phase1Result::Validated(req) ==> ((req is Some) <==> old(self).risk_set()),
            r matches Phase1Result::Validated(Some(rq)) ==> request_matches(
                rq,
                *final(self),
                user@,
            ),
            old(self).borrow_ok(user@, token@, amount as nat) && !old(self).risk_set() ==> r
                == Phase1Result::Validated(None::<RiskRequest>),
    {
        let i: usize = match amap_find(&self.users, user) {
            Some(i) => i,
            None => {
                return Phase1Result::Rejected;
            },
        };
        if !self.is_supported(token) {
            return Phase1Result::Rejected;
        }
        proof {
            lemma_account_bounds(*self, user@);
            lemma_price_bounded(token@);
        }
        let bal: u64 = tmap_read(&self.users[i].1.balances, token);
        if amount > u64::MAX - bal {
            return Phase1Result::Rejected;
        }
        let coll_usd: u128 = usd_total(&self.users[i].1.collateral);
        let borrowed_now: u128 = usd_total(&self.users[i].1.balances);
        let cs: u64 = self.users[i].1.credit_score;
        let price: u64 = token_price(token);
        proof {
            vstd::arithmetic::mul::lemma_mul_upper_bound(
                amount as int,
                u64::MAX as int,
                price as int,
                max_price() as int,
            );
        }
        let delta: u128 = (amount as u128) * (price as u128);
        let borrowed_post: u128 = borrowed_now + delta;
        let needed: u128 = required_collateral(borrowed_post);
        if coll_usd < needed {
            return Phase1Result::Rejected;
        }
        let (uname, mut acct) = self.users.remove(i);
        let added = tmap_add(&mut acct.balances, token, amount);
        self.users.insert(i, (uname, acct));
        proof {
            assert(added);
            assert(self.users@ =~= old(self).users@.update(i as int, self.users@[i as int]));
            assert(account_wf(old(self).users@[i as int].1, self.supported_tokens@));
            lemma_amap_val_update(old(self).users@, i as int, self.users@[i as int]);
            lemma_map_wf_after(
                old(self).users@[i as int].1.balances@,
                self.users@[i as int].1.balances@,
                self.supported_tokens@,
                token@,
            );
            assert forall|u2: Seq<char>| u2 != user@ implies user_state_eq(
                *old(self),
                *self,
                u2,
            ) by {
                assert(amap_val(self.users@, u2) == amap_val(old(self).users@, u2));
            }
            if all_ratios_ok(*old(self)) {
                assert(old(self).ratio_ok(user@));
                lemma_ratios_from_frame(*old(self), *self, user@);
            }
        }
        if self.risk_service.is_some() {
            let volatility: u128 = scaled_volatility(borrowed_post, borrowed_post);
            Phase1Result::Validated(
                Some(
                    RiskRequest {
                        volatility,
                        collateral: coll_usd,
                        borrowed: borrowed_post,
                        deposits: borrowed_post,
                        credit_score: cs,
                    },
                ),
            )
        } else {
            Phase1Result::Validated(None)
        }
    }
}

/// A mutated per-token map stays well-formed when its key set did not grow.
proof fn lemma_map_wf_same_keys(
    s1: Seq<(String, u64)>,
    s2: Seq<(String, u64)>,
    toks: Seq<String>,
)
    requires
        account_map_wf(s1, toks),
        amap_uniq(s2),
        forall|k: Seq<char>| #[trigger] amap_has(s2, k) ==> amap_has(s1, k),
    ensures
        account_map_wf(s2, toks),
{
    assert forall|i: int| 0 <= i < s2.len() implies token_listed(
        toks,
        (#[trigger] s2[i]).0@,
    ) by {
        let k = s2[i].0@;
        lemma_amap_idx_props(s2, k, 0);
        assert(amap_has(s2, k));
        lemma_amap_idx_props(s1, k, 0);
        let m = amap_idx(s1, k, 0);
        assert(token_listed(toks, s1[m].0@));
    }
}

impl DeFiPool {
    /// Phase 3 of a borrow: record the risk service's advice on the account
    /// and, exactly when the verdict is an explicit high-risk one, revert
    /// the delta committed in phase 1. An absent response leaves the commit
    /// standing, since only an explicit high-risk verdict can revert.
    /// Returns whether the commit stands.
    pub fn borrow_phase3(
        &mut self,
        user: &String,
        token: &String,
        amount: u64,
        response: &Option<RiskResponse>,
    ) -> (committed: bool)
        requires
            old(self).wf(),
        ensures
            all_ratios_ok(*old(self)) ==> all_ratios_ok(*final(self)),
            final(self).wf(),
            !old(self).signed_up(user@) ==> *final(self) == *old(self) && !committed,
            old(self).signed_up(user@) ==> committed == !is_high_risk(*response),
            old(self).signed_up(user@) ==> final(self).risk_advice_of(user@) == Some(
                advice_text(*response),
            ),
            old(self).signed_up(user@) ==> final(self).signed_up(user@) && final(self).credit_score_of(user@) == old(self).credit_score_of(user@) && final(self).username_of(user@) == old(self).username_of(user@),
            old(self).signed_up(user@) ==> forall|t: Seq<char>|
                #[trigger] final(self).collateral_of(user@, t) == old(self).collateral_of(
                    user@,
                    t,
                ),
            old(self).signed_up(user@) ==> final(self).collateral_usd(user@) == old(self).collateral_usd(user@),
            old(self).signed_up(user@) && !is_high_risk(*response) ==> (forall|t: Seq<char>|
                #[trigger] final(self).balance_of(user@, t) == old(self).balance_of(user@, t))
                && final(self).borrowed_usd(user@) == old(self).borrowed_usd(user@),
            old(self).signed_up(user@) && is_high_risk(*response) && amount as nat <= old(self).balance_of(user@, token@) ==> final(self).balance_of(user@, token@) + amount == old(self).balance_of(user@, token@) && final(self).borrowed_usd(user@) + (amount as nat)
                * price_spec(token@) == old(self).borrowed_usd(user@),
            old(self).signed_up(user@) && is_high_risk(*response) && amount as nat > old(self).balance_of(user@, token@) ==> (forall|t: Seq<char>|
                #[trigger] final(self).balance_of(user@, t) == old(self).balance_of(user@, t))
                && final(self).borrowed_usd(user@) == old(self).borrowed_usd(user@),
            old(self).signed_up(user@) && is_high_risk(*response) ==> forall|t: Seq<char>|
                t != token@ ==> #[trigger] final(self).balance_of(user@, t) == old(self).balance_of(user@, t),
            others_unchanged(*old(self), *final(self), user@),
            admin_unchanged(*old(self), *final(self)),
            final(self).mint_log() == old(self).mint_log(),
            old(self).ratio_ok(user@) ==> final(self).ratio_ok(user@),
    {
        let i: usize = match amap_find(&self.users, user) {
            Some(i) => i,
            None => {
                return false;
            },
        };
        let high: bool = match response {
            Some(resp) => resp.risk_score == 1,
            None => false,
        };
        let advice: String = match response {
            Some(resp) => resp.advice.clone(),
            None => "AI service unavailable".to_owned(),
        };
        let ghost old_b = old(self).borrowed_usd(user@);
        let (uname, mut acct) = self.users.remove(i);
        acct.risk_advice = Some(advice);
        if high {
            let _reverted = tmap_sub(&mut acct.balances, token, amount);
        }
        self.users.insert(i, (uname, acct));
        proof {
            assert(self.users@ =~= old(self).users@.update(i as int, self.users@[i as int]));
            assert(account_wf(old(self).users@[i as int].1, self.supported_tokens@));
            lemma_amap_val_update(old(self).users@, i as int, self.users@[i as int]);
            lemma_map_wf_same_keys(
                old(self).users@[i as int].1.balances@,
                self.users@[i as int].1.balances@,
                self.supported_tokens@,
            );
            assert forall|u2: Seq<char>| u2 != user@ implies user_state_eq(
                *old(self),
                *self,
                u2,
            ) by {
                assert(amap_val(self.users@, u2) == amap_val(old(self).users@, u2));
            }
            if old(self).ratio_ok(user@) {
                lemma_required_collateral_monotone(self.borrowed_usd(user@), old_b);
            }
            if all_ratios_ok(*old(self)) {
                assert(old(self).ratio_ok(user@));
                lemma_required_collateral_monotone(self.borrowed_usd(user@), old_b);
                lemma_ratios_from_frame(*old(self), *self, user@);
            }
        }
        !high
    }

    /// The first phase of a collateral deposit accepts exactly these
    /// inputs: a signed-up user, a registered token, and a collateral entry
    /// that still fits the amount type. Adding collateral can only improve
    /// the position, so no policy check applies.
    pub open spec fn deposit_collateral_ok(self, u: Seq<char>, t: Seq<char>, amount: nat) -> bool {
        &&& self.signed_up(u)
        &&& self.supported(t)
        &&& self.collateral_of(u, t) + amount <= u64::MAX as nat
    }

    /// Phase 1 of a collateral deposit: commit the new collateral. When a
    /// risk service is configured, hand back the request to send; the
    /// caller then resolves the operation through
    /// `deposit_collateral_phase3`. Without a configured risk service the
    /// committed state stands: absence of the service never blocks the
    /// operation.
    pub fn deposit_collateral_phase1(&mut self, user: &String, token: &String, amount: u64) -> (r:
        Phase1Result)
        requires
            old(self).wf(),
        ensures
            all_ratios_ok(*old(self)) ==> all_ratios_ok(*final(self)),
            final(self).wf(),
            (r is Rejected) <==> !old(self).deposit_collateral_ok(user@, token@, amount as nat),
            r is Rejected ==> *final(self) == *old(self),
            !(r is Rejected) ==> final(self).collateral_of(user@, token@) == old(self).collateral_of(user@, token@) + amount,
            !(r is Rejected) ==> forall|t: Seq<char>|
                t != token@ ==> #[trigger] final(self).collateral_of(user@, t) == old(self).collateral_of(user@, t),
            !(r is Rejected) ==> forall|t: Seq<char>|
                #[trigger] final(self).balance_of(user@, t) == old(self).balance_of(user@, t),
            !(r is Rejected) ==> final(self).collateral_usd(user@) == old(self).collateral_usd(
                user@,
            ) + (amount as nat) * price_spec(token@),
            !(r is Rejected) ==> final(self).borrowed_usd(user@) == old(self).borrowed_usd(user@),
            !(r is Rejected) ==> final(self).credit_score_of(user@) == old(self).credit_score_of(
                user@,
            ) && final(self).risk_advice_of(user@) == old(self).risk_advice_of(user@) && final(self).username_of(user@) == old(self).username_of(user@) && final(self).signed_up(user@),
            !(r is Rejected) && old(self).ratio_ok(user@) ==> final(self).ratio_ok(user@),
            !(r is Rejected) ==> others_unchanged(*old(self), *final(self), user@),
            !(r is Rejected) ==> admin_unchanged(*old(self), *final(self)),
            !(r is Rejected) ==> final(self).mint_log() == old(self).mint_log(),
            r matches Phase1Result::Validated(req) ==> ((req is Some) <==> old(self).risk_set()),
            r matches Phase1Result::Validated(Some(rq)) ==> request_matches(
                rq,
                *final(self),
                user@,
            ),
            old(self).deposit_collateral_ok(user@, token@, amount as nat) && !old(self).risk_set()
                ==> r == Phase1Result::Validated(None::<RiskRequest>),
    {
        let i: usize = match amap_find(&self.users, user) {
            Some(i) => i,
            None => {
                return Phase1Result::Rejected;
            },
        };
        if !self.is_supported(token) {
            return Phase1Result::Rejected;
        }
        proof {
            lemma_account_bounds(*self, user@);
            lemma_price_bounded(token@);
        }
        let coll_entry: u64 = tmap_read(&self.users[i].1.collateral, token);
        if amount > u64::MAX - coll_entry {
            return Phase1Result::Rejected;
        }
        let coll_usd: u128 = usd_total(&self.users[i].1.collateral);
        let borrowed_now: u128 = usd_total(&self.users[i].1.balances);
        let cs: u64 = self.users[i].1.credit_score;
        let price: u64 = token_price(token);
        proof {
            vstd::arithmetic::mul::lemma_mul_upper_bound(
                amount as int,
                u64::MAX as int,
                price as int,
                max_price() as int,
            );
        }
        let delta: u128 = (amount as u128) * (price as u128);
        let coll_post: u128 = coll_usd + delta;
        let (uname, mut acct) = self.users.remove(i);
        let added = tmap_add(&mut acct.collateral, token, amount);
        self.users.insert(i, (uname, acct));
        proof {
            assert(added);
            assert(self.users@ =~= old(self).users@.update(i as int, self.users@[i as int]));
            assert(account_wf(old(self).users@[i as int].1, self.supported_tokens@));
            lemma_amap_val_update(old(self).users@, i as int, self.users@[i as int]);
            lemma_map_wf_after(
                old(self).users@[i as int].1.collateral@,
                self.users@[i as int].1.collateral@,
                self.supported_tokens@,
                token@,
            );
            assert forall|u2: Seq<char>| u2 != user@ implies user_state_eq(
                *old(self),
                *self,
                u2,
            ) by {
                assert(amap_val(self.users@, u2) == amap_val(old(self).users@, u2));
            }
            if all_ratios_ok(*old(self)) {
                assert(old(self).ratio_ok(user@));
                lemma_ratios_from_frame(*old(self), *self, user@);
            }
        }
        if self.risk_service.is_some() {
            let volatility: u128 = scaled_volatility(borrowed_now, borrowed_now);
            Phase1Result::Validated(
                Some(
                    RiskRequest {
                        volatility,
                        collateral: coll_post,
                        borrowed: borrowed_now,
                        deposits: borrowed_now,
                        credit_score: cs,
                    },
                ),
            )
        } else {
            Phase1Result::Validated(None)
        }
    }

    /// Phase 3 of a collateral deposit: record the advice and, exactly on
    /// an explicit high-risk verdict, revert the collateral committed in
    /// phase 1. Returns whether the commit stands.
    pub fn deposit_collateral_phase3(
        &mut self,
        user: &String,
        token: &String,
        amount: u64,
        response: &Option<RiskResponse>,
    ) -> (committed: bool)
        requires
            old(self).wf(),
        ensures
            !is_high_risk(*response) && all_ratios_ok(*old(self)) ==> all_ratios_ok(*final(self)),
            final(self).wf(),
            !old(self).signed_up(user@) ==> *final(self) == *old(self) && !committed,
            old(self).signed_up(user@) ==> committed == !is_high_risk(*response),
            old(self).signed_up(user@) ==> final(self).risk_advice_of(user@) == Some(
                advice_text(*response),
            ),
            old(self).signed_up(user@) ==> final(self).signed_up(user@) && final(self).credit_score_of(user@) == old(self).credit_score_of(user@) && final(self).username_of(user@) == old(self).username_of(user@),
            old(self).signed_up(user@) ==> forall|t: Seq<char>|
                #[trigger] final(self).balance_of(user@, t) == old(self).balance_of(user@, t),
            old(self).signed_up(user@) ==> final(self).borrowed_usd(user@) == old(self).borrowed_usd(user@),
            old(self).signed_up(user@) && !is_high_risk(*response) ==> (forall|t: Seq<char>|
                #[trigger] final(self).collateral_of(user@, t) == old(self).collateral_of(
                    user@,
                    t,
                )) && final(self).collateral_usd(user@) == old(self).collateral_usd(user@),
            old(self).signed_up(user@) && is_high_risk(*response) && amount as nat <= old(self).collateral_of(user@, token@) ==> final(self).collateral_of(user@, token@) + amount
                == old(self).collateral_of(user@, token@) && final(self).collateral_usd(user@) + (
            amount as nat) * price_spec(token@) == old(self).collateral_usd(user@),
            old(self).signed_up(user@) && is_high_risk(*response) && amount as nat > old(self).collateral_of(user@, token@) ==> (forall|t: Seq<char>|
                #[trigger] final(self).collateral_of(user@, t) == old(self).collateral_of(
                    user@,
                    t,
                )) && final(self).collateral_usd(user@) == old(self).collateral_usd(user@),
            old(self).signed_up(user@) && is_high_risk(*response) ==> forall|t: Seq<char>|
                t != token@ ==> #[trigger] final(self).collateral_of(user@, t) == old(self).collateral_of(user@, t),
            old(self).signed_up(user@) && !is_high_risk(*response) && old(self).ratio_ok(user@)
                ==> final(self).ratio_ok(user@),
            others_unchanged(*old(self), *final(self), user@),
            admin_unchanged(*old(self), *final(self)),
            final(self).mint_log() == old(self).mint_log(),
    {
        let i: usize = match amap_find(&self.users, user) {
            Some(i) => i,
            None => {
                return false;
            },
        };
        let high: bool = match response {
            Some(resp) => resp.risk_score == 1,
            None => false,
        };
        let advice: String = match response {
            Some(resp) => resp.advice.clone(),
            None => "AI service unavailable".to_owned(),
        };
        let (uname, mut acct) = self.users.remove(i);
        acct.risk_advice = Some(advice);
        if high {
            let _reverted = tmap_sub(&mut acct.collateral, token, amount);
        }
        self.users.insert(i, (uname, acct));
        proof {
            assert(self.users@ =~= old(self).users@.update(i as int, self.users@[i as int]));
            assert(account_wf(old(self).users@[i as int].1, self.supported_tokens@));
            lemma_amap_val_update(old(self).users@, i as int, self.users@[i as int]);
            lemma_map_wf_same_keys(
                old(self).users@[i as int].1.collateral@,
                self.users@[i as int].1.collateral@,
                self.supported_tokens@,
            );
            assert forall|u2: Seq<char>| u2 != user@ implies user_state_eq(
                *old(self),
                *self,
                u2,
            ) by {
                assert(amap_val(self.users@, u2) == amap_val(old(self).users@, u2));
            }
            if !high && all_ratios_ok(*old(self)) {
                assert(old(self).ratio_ok(user@));
                lemma_ratios_from_frame(*old(self), *self, user@);
            }
        }
        !high
    }

    /// A repayment accepts exactly these inputs: a signed-up user with at
    /// least the repaid amount outstanding in that token.
    pub open spec fn repay_ok(self, u: Seq<char>, t: Seq<char>, amount: nat) -> bool {
        &&& self.signed_up(u)
        &&& amount <= self.balance_of(u, t)
    }

    /// Repay part of a borrowed balance. Single-phase: no risk check, no
    /// suspension; a repayment can only improve the position.
    pub fn repay(&mut self, user: &String, token: &String, amount: u64) -> (ok: bool)
        requires
            old(self).wf(),
        ensures
            all_ratios_ok(*old(self)) ==> all_ratios_ok(*final(self)),
            final(self).wf(),
            ok == old(self).repay_ok(user@, token@, amount as nat),
            !ok ==> *final(self) == *old(self),
            ok ==> final(self).balance_of(user@, token@) + amount == old(self).balance_of(
                user@,
                token@,
            ),
            ok ==> forall|t: Seq<char>|
                t != token@ ==> #[trigger] final(self).balance_of(user@, t) == old(self).balance_of(user@, t),
            ok ==> forall|t: Seq<char>|
                #[trigger] final(self).collateral_of(user@, t) == old(self).collateral_of(
                    user@,
                    t,
                ),
            ok ==> final(self).borrowed_usd(user@) + (amount as nat) * price_spec(token@) == old(self).borrowed_usd(user@),
            ok ==> final(self).collateral_usd(user@) == old(self).collateral_usd(user@),
            ok ==> final(self).signed_up(user@) && final(self).credit_score_of(user@) == old(self).credit_score_of(user@) && final(self).risk_advice_of(user@) == old(self).risk_advice_of(user@) && final(self).username_of(user@) == old(self).username_of(
                user@,
            ),
            ok ==> others_unchanged(*old(self), *final(self), user@),
            ok ==> admin_unchanged(*old(self), *final(self)),
            ok ==> final(self).mint_log() == old(self).mint_log(),
            old(self).ratio_ok(user@) ==> final(self).ratio_ok(user@),
    {
        let i: usize = match amap_find(&self.users, user) {
            Some(i) => i,
            None => {
                return false;
            },
        };
        let bal: u64 = tmap_read(&self.users[i].1.balances, token);
        if bal < amount {
            return false;
        }
        let ghost old_b = old(self).borrowed_usd(user@);
        let (uname, mut acct) = self.users.remove(i);
        let sub_ok = tmap_sub(&mut acct.balances, token, amount);
        self.users.insert(i, (uname, acct));
        proof {
            assert(sub_ok);
            assert(self.users@ =~= old(self).users@.update(i as int, self.users@[i as int]));
            assert(account_wf(old(self).users@[i as int].1, self.supported_tokens@));
            lemma_amap_val_update(old(self).users@, i as int, self.users@[i as int]);
            lemma_map_wf_same_keys(
                old(self).users@[i as int].1.balances@,
                self.users@[i as int].1.balances@,
                self.supported_tokens@,
            );
            assert forall|u2: Seq<char>| u2 != user@ implies user_state_eq(
                *old(self),
                *self,
                u2,
            ) by {
                assert(amap_val(self.users@, u2) == amap_val(old(self).users@, u2));
            }
            if old(self).ratio_ok(user@) {
                lemma_required_collateral_monotone(self.borrowed_usd(user@), old_b);
            }
            if all_ratios_ok(*old(self)) {
                assert(old(self).ratio_ok(user@));
                lemma_required_collateral_monotone(self.borrowed_usd(user@), old_b);
                lemma_ratios_from_frame(*old(self), *self, user@);
            }
        }
        true
    }

    /// A collateral withdrawal accepts exactly these inputs: a signed-up
    /// user with enough collateral in that token, whose remaining
    /// collateral still covers the borrowed position at the policy ratio.
    pub open spec fn withdraw_ok(self, u: Seq<char>, t: Seq<char>, amount: nat) -> bool {
        &&& self.signed_up(u)
        &&& amount <= self.collateral_of(u, t)
        &&& self.collateral_usd(u) >= required_collateral_spec(self.borrowed_usd(u)) + amount
            * price_spec(t)
    }

    /// Withdraw posted collateral. Single-phase, but checked against the
    /// collateral policy: the remaining collateral must still cover the
    /// borrowed position.
    pub fn withdraw_collateral(&mut self, user: &String, token: &String, amount: u64) -> (ok: bool)
        requires
            old(self).wf(),
        ensures
            all_ratios_ok(*old(self)) ==> all_ratios_ok(*final(self)),
            final(self).wf(),
            ok == old(self).withdraw_ok(user@, token@, amount as nat),
            !ok ==> *final(self) == *old(self),
            ok ==> final(self).collateral_of(user@, token@) + amount == old(self).collateral_of(
                user@,
                token@,
            ),
            ok ==> forall|t: Seq<char>|
                t != token@ ==> #[trigger] final(self).collateral_of(user@, t) == old(self).collateral_of(user@, t),
            ok ==> forall|t: Seq<char>|
                #[trigger] final(self).balance_of(user@, t) == old(self).balance_of(user@, t),
            ok ==> final(self).collateral_usd(user@) + (amount as nat) * price_spec(token@)
                == old(self).collateral_usd(user@),
            ok ==> final(self).borrowed_usd(user@) == old(self).borrowed_usd(user@),
            ok ==> final(self).ratio_ok(user@),
            ok ==> final(self).signed_up(user@) && final(self).credit_score_of(user@) == old(self).credit_score_of(user@) && final(self).risk_advice_of(user@) == old(self).risk_advice_of(user@) && final(self).username_of(user@) == old(self).username_of(
                user@,
            ),
            ok ==> others_unchanged(*old(self), *final(self), user@),
            ok ==> admin_unchanged(*old(self), *final(self)),
            ok ==> final(self).mint_log() == old(self).mint_log(),
    {
        let i: usize = match amap_find(&self.users, user) {
            Some(i) => i,
            None => {
                return false;
            },
        };
        let coll_entry: u64 = tmap_read(&self.users[i].1.collateral, token);
        if coll_entry < amount {
            return false;
        }
        proof {
            lemma_account_bounds(*self, user@);
            lemma_price_bounded(token@);
        }
        let coll_usd: u128 = usd_total(&self.users[i].1.collateral);
        let borrowed_now: u128 = usd_total(&self.users[i].1.balances);
        let price: u64 = token_price(token);
        proof {
            vstd::arithmetic::mul::lemma_mul_upper_bound(
                amount as int,
                u64::MAX as int,
                price as int,
                max_price() as int,
            );
        }
        let delta: u128 = (amount as u128) * (price as u128);
        let needed: u128 = required_collateral(borrowed_now);
        if coll_usd < needed + delta {
            return false;
        }
        let (uname, mut acct) = self.users.remove(i);
        let sub_ok = tmap_sub(&mut acct.collateral, token, amount);
        self.users.insert(i, (uname, acct));
        proof {
            assert(sub_ok);
            assert(self.users@ =~= old(self).users@.update(i as int, self.users@[i as int]));
            assert(account_wf(old(self).users@[i as int].1, self.supported_tokens@));
            lemma_amap_val_update(old(self).users@, i as int, self.users@[i as int]);
            lemma_map_wf_same_keys(
                old(self).users@[i as int].1.collateral@,
                self.users@[i as int].1.collateral@,
                self.supported_tokens@,
            );
            assert forall|u2: Seq<char>| u2 != user@ implies user_state_eq(
                *old(self),
                *self,
                u2,
            ) by {
                assert(amap_val(self.users@, u2) == amap_val(old(self).users@, u2));
            }
            if all_ratios_ok(*old(self)) {
                assert(old(self).ratio_ok(user@));
                lemma_ratios_from_frame(*old(self), *self, user@);
            }
        }
        true
    }

    /// Append one mint event to the audit log. The log only ever grows.
    pub fn log_mint(&mut self, user: &String, token: &String, amount: u64)
        requires
            old(self).wf(),
        ensures
            all_ratios_ok(*old(self)) ==> all_ratios_ok(*final(self)),
            final(self).wf(),
            final(self).mint_log() == old(self).mint_log().push((*user, *token, amount)),
            forall|u: Seq<char>| #[trigger] user_state_eq(*old(self), *final(self), u),
            admin_unchanged(*old(self), *final(self)),
    {
        self.mint_logs.push((user.clone(), token.clone(), amount));
        proof {
            if all_ratios_ok(*old(self)) {
                assert forall|u: Seq<char>| #[trigger] user_state_eq(*old(self), *self, u) by {}
                lemma_ratios_same_users(*old(self), *self);
            }
        }
    }

    /// A ledger deposit accepts exactly these inputs: a signed-up user, a
    /// registered token, and a balance that still fits the amount type.
    pub open spec fn deposit_ok(self, u: Seq<char>, t: Seq<char>, amount: nat) -> bool {
        &&& self.signed_up(u)
        &&& self.supported(t)
        &&& self.balance_of(u, t) + amount <= u64::MAX as nat
    }

    /// Book a deposit after the external transfer and mint both succeeded:
    /// credit the stablecoin balance and append the mint event. The caller
    /// must not book a deposit whose external steps failed.
    pub fn deposit_commit(&mut self, user: &String, token: &String, amount: u64) -> (ok: bool)
        requires
            old(self).wf(),
        ensures
            final(self).wf(),
            ok == old(self).deposit_ok(user@, token@, amount as nat),
            !ok ==> *final(self) == *old(self),
            ok ==> final(self).balance_of(user@, token@) == old(self).balance_of(user@, token@)
                + amount,
            ok ==> forall|t: Seq<char>|
                t != token@ ==> #[trigger] final(self).balance_of(user@, t) == old(self).balance_of(user@, t),
            ok ==> forall|t: Seq<char>|
                #[trigger] final(self).collateral_of(user@, t) == old(self).collateral_of(
                    user@,
                    t,
                ),
            ok ==> final(self).borrowed_usd(user@) == old(self).borrowed_usd(user@) + (
            amount as nat) * price_spec(token@),
            ok ==> final(self).collateral_usd(user@) == old(self).collateral_usd(user@),
            ok ==> final(self).signed_up(user@) && final(self).credit_score_of(user@) == old(self).credit_score_of(user@) && final(self).risk_advice_of(user@) == old(self).risk_advice_of(user@) && final(self).username_of(user@) == old(self).username_of(
                user@,
            ),
            ok ==> others_unchanged(*old(self), *final(self), user@),
            ok ==> admin_unchanged(*old(self), *final(self)),
            ok ==> final(self).mint_log() == old(self).mint_log().push((*user, *token, amount)),
    {
        let i: usize = match amap_find(&self.users, user) {
            Some(i) => i,
            None => {
                return false;
            },
        };
        if !self.is_supported(token) {
            return false;
        }
        let bal: u64 = tmap_read(&self.users[i].1.balances, token);
        if amount > u64::MAX - bal {
            return false;
        }
        let (uname, mut acct) = self.users.remove(i);
        let added = tmap_add(&mut acct.balances, token, amount);
        self.users.insert(i, (uname, acct));
        proof {
            assert(added);
            assert(self.users@ =~= old(self).users@.update(i as int, self.users@[i as int]));
            assert(account_wf(old(self).users@[i as int].1, self.supported_tokens@));
            lemma_amap_val_update(old(self).users@, i as int, self.users@[i as int]);
            lemma_map_wf_after(
                old(self).users@[i as int].1.balances@,
                self.users@[i as int].1.balances@,
                self.supported_tokens@,
                token@,
            );
            assert forall|u2: Seq<char>| u2 != user@ implies user_state_eq(
                *old(self),
                *self,
                u2,
            ) by {
                assert(amap_val(self.users@, u2) == amap_val(old(self).users@, u2));
            }
        }
        let ghost mid = *self;
        self.log_mint(user, token, amount);
        proof {
            assert(user_state_eq(mid, *self, user@));
            assert forall|u2: Seq<char>| u2 != user@ implies user_state_eq(
                *old(self),
                *self,
                u2,
            ) by {
                assert(user_state_eq(*old(self), mid, u2));
                assert(user_state_eq(mid, *self, u2));
            }
            assert forall|t: Seq<char>| #[trigger] old(self).canister_addr(t)
                == self.canister_addr(t) by {
                assert(old(self).canister_addr(t) == mid.canister_addr(t));
                assert(mid.canister_addr(t) == self.canister_addr(t));
            }
        }
        true
    }

    /// The token-contract address registered for a token, if any.
    pub fn token_canister(&self, token: &String) -> (r: Option<String>)
        ensures
            match r {
                Some(p) => self.canister_addr(token@) == Some(p@),
                None => self.canister_addr(token@) is None,
            },
    {
        match amap_find(&self.token_canisters, token) {
            Some(i) => Some(self.token_canisters[i].1.clone()),
            None => None,
        }
    }
}

/// The token-amount entries of one balance map, in storage order.
pub open spec fn entry_seq(b: Seq<(String, u64)>) -> Seq<StableBalanceEntry> {
    Seq::new(b.len(), |j: int| StableBalanceEntry { token: b[j].0, value: b[j].1 })
}

/// All balance entries of the first `i` accounts, account by account.
pub open spec fn entries_prefix(s: Seq<(String, UserAccount)>, i: int) -> Seq<StableBalanceEntry>
    decreases i,
{
    if i <= 0 {
        Seq::empty()
    } else {
        entries_prefix(s, i - 1) + entry_seq(s[i - 1].1.balances@)
    }
}

/// Sum of the stablecoin balances of the first `i` accounts.
pub open spec fn supply_prefix(s: Seq<(String, UserAccount)>, i: int) -> nat
    decreases i,
{
    if i <= 0 {
        0
    } else {
        supply_prefix(s, i - 1) + sum_value(s[i - 1].1.balances@)
    }
}

/// The mint-log entries of one user, as (token, amount), in log order,
/// among the first `i` log entries.
pub open spec fn per_user_log(s: Seq<(String, String, u64)>, u: Seq<char>, i: int) -> Seq<
    (String, u64),
>
    decreases i,
{
    if i <= 0 {
        Seq::empty()
    } else if s[i - 1].0@ == u {
        per_user_log(s, u, i - 1).push((s[i - 1].1, s[i - 1].2))
    } else {
        per_user_log(s, u, i - 1)
    }
}

impl DeFiPool {
    /// Total stablecoin supply: every user's every balance, summed.
    pub closed spec fn total_supply_spec(self) -> nat {
        supply_prefix(self.users@, self.users@.len() as int)
    }

    /// Every user's balance entries, flattened in storage order.
    pub closed spec fn all_balance_entries(self) -> Seq<StableBalanceEntry> {
        entries_prefix(self.users@, self.users@.len() as int)
    }

    /// How many users have signed up.
    pub closed spec fn user_count(self) -> nat {
        self.users@.len()
    }

    /// Username the user registered at signup.
    pub fn get_username(&self, user: &String) -> (r: Option<String>)
        ensures
            match r {
                Some(s) => self.username_of(user@) == Some(s@),
                None => self.username_of(user@) is None,
            },
    {
        match amap_find(&self.users, user) {
            Some(i) => match &self.users[i].1.username {
                Some(name) => Some(name.clone()),
                None => None,
            },
            None => None,
        }
    }

    /// Identities of all signed-up users.
    pub fn list_users(&self) -> (r: Vec<String>)
        requires
            self.wf(),
        ensures
            r@.len() == self.user_count(),
            forall|i: int| 0 <= i < r@.len() ==> self.signed_up((#[trigger] r@[i])@),
            forall|u: Seq<char>|
                #[trigger] self.signed_up(u) ==> exists|i: int|
                    0 <= i < r@.len() && (#[trigger] r@[i])@ == u,
    {
        let n: usize = self.users.len();
        let mut r: Vec<String> = Vec::new();
        let mut i: usize = 0;
        while i < n
            invariant
                0 <= i <= n,
                n == self.users@.len(),
                r@.len() == i,
                forall|j: int| 0 <= j < i ==> (#[trigger] r@[j])@ == self.users@[j].0@,
            decreases n - i,
        {
            r.push(self.users[i].0.clone());
            i = i + 1;
        }
        proof {
            assert forall|j: int| 0 <= j < r@.len() implies self.signed_up(
                (#[trigger] r@[j])@,
            ) by {
                lemma_amap_idx_props(self.users@, r@[j]@, 0);
            }
            assert forall|u: Seq<char>| #[trigger] self.signed_up(u) implies exists|i2: int|
                0 <= i2 < r@.len() && (#[trigger] r@[i2])@ == u by {
                lemma_amap_idx_props(self.users@, u, 0);
                let m = amap_idx(self.users@, u, 0);
                assert(r@[m]@ == u);
            }
        }
        r
    }

    /// Snapshot of the user's account, if the user has signed up.
    pub fn get_user_account(&self, user: &String) -> (r: Option<UserAccount>)
        ensures
            r is Some <==> self.signed_up(user@),
            match r {
                Some(a) => match self.account_of(user@) {
                    Some(b) => a.balances@ == b.balances@ && a.collateral@ == b.collateral@
                        && a.credit_score == b.credit_score && a.risk_advice == b.risk_advice
                        && a.username == b.username,
                    None => false,
                },
                None => true,
            },
    {
        match amap_find(&self.users, user) {
            Some(i) => {
                let a = &self.users[i].1;
                Some(
                    UserAccount {
                        balances: tmap_clone(&a.balances),
                        collateral: tmap_clone(&a.collateral),
                        credit_score: a.credit_score,
                        risk_advice: match &a.risk_advice {
                            Some(s) => Some(s.clone()),
                            None => None,
                        },
                        username: match &a.username {
                            Some(s) => Some(s.clone()),
                            None => None,
                        },
                    },
                )
            },
            None => None,
        }
    }

    /// The user's per-token stablecoin balances, in storage order.
    pub fn get_user_balances(&self, user: &String) -> (r: Vec<StableBalanceEntry>)
        ensures
            match self.account_of(user@) {
                Some(a) => r@ == entry_seq(a.balances@),
                None => r@.len() == 0,
            },
    {
        let mut r: Vec<StableBalanceEntry> = Vec::new();
        match amap_find(&self.users, user) {
            Some(i) => {
                let b = &self.users[i].1.balances;
                let n: usize = b.len();
                let mut j: usize = 0;
                while j < n
                    invariant
                        0 <= j <= n,
                        n == b@.len(),
                        r@ =~= entry_seq(b@).subrange(0, j as int),
                    decreases n - j,
                {
                    r.push(StableBalanceEntry { token: b[j].0.clone(), value: b[j].1 });
                    proof {
                        assert(r@ =~= entry_seq(b@).subrange(0, j + 1 as int));
                    }
                    j = j + 1;
                }
                proof {
                    assert(r@ =~= entry_seq(b@));
                }
                r
            },
            None => r,
        }
    }

    /// The user's per-token collateral, if the user has signed up.
    pub fn get_user_collateral(&self, user: &String) -> (r: Option<Vec<CollateralEntry>>)
        ensures
            r is Some <==> self.signed_up(user@),
            match r {
                Some(entries) => match self.account_of(user@) {
                    Some(a) => entries@.len() == a.collateral@.len() && forall|j: int|
                        0 <= j < entries@.len() ==> (#[trigger] entries@[j]).token
                            == a.collateral@[j].0 && entries@[j].amount == a.collateral@[j].1,
                    None => false,
                },
                None => true,
            },
    {
        match amap_find(&self.users, user) {
            Some(i) => {
                let c = &self.users[i].1.collateral;
                let n: usize = c.len();
                let mut entries: Vec<CollateralEntry> = Vec::new();
                let mut j: usize = 0;
                while j < n
                    invariant
                        0 <= j <= n,
                        n == c@.len(),
                        entries@.len() == j,
                        forall|m: int|
                            0 <= m < j ==> (#[trigger] entries@[m]).token == c@[m].0
                                && entries@[m].amount == c@[m].1,
                    decreases n - j,
                {
                    entries.push(CollateralEntry { token: c[j].0.clone(), amount: c[j].1 });
                    j = j + 1;
                }
                Some(entries)
            },
            None => None,
        }
    }

    /// Stablecoin balance of a user for one token; zero when absent.
    pub fn get_balance(&self, user: &String, token: &String) -> (r: u64)
        ensures
            r as nat == self.balance_of(user@, token@),
    {
        match amap_find(&self.users, user) {
            Some(i) => tmap_read(&self.users[i].1.balances, token),
            None => 0,
        }
    }

    /// The supported-token registry, in registration order.
    pub fn supported_tokens(&self) -> (r: Vec<String>)
        ensures
            r@ == self.tokens(),
    {
        let n: usize = self.supported_tokens.len();
        let mut r: Vec<String> = Vec::new();
        let mut i: usize = 0;
        while i < n
            invariant
                0 <= i <= n,
                n == self.supported_tokens@.len(),
                r@ =~= self.supported_tokens@.subrange(0, i as int),
            decreases n - i,
        {
            r.push(self.supported_tokens[i].clone());
            proof {
                assert(r@ =~= self.supported_tokens@.subrange(0, i + 1 as int));
            }
            i = i + 1;
        }
        proof {
            assert(r@ =~= self.supported_tokens@);
        }
        r
    }

    /// The whole mint audit log, oldest first.
    pub fn get_mint_logs(&self) -> (r: Vec<(String, String, u64)>)
        ensures
            r@ == self.mint_log(),
    {
        let n: usize = self.mint_logs.len();
        let mut r: Vec<(String, String, u64)> = Vec::new();
        let mut i: usize = 0;
        while i < n
            invariant
                0 <= i <= n,
                n == self.mint_logs@.len(),
                r@ =~= self.mint_logs@.subrange(0, i as int),
            decreases n - i,
        {
            let e = &self.mint_logs[i];
            r.push((e.0.clone(), e.1.clone(), e.2));
            proof {
                assert(r@ =~= self.mint_logs@.subrange(0, i + 1 as int));
            }
            i = i + 1;
        }
        proof {
            assert(r@ =~= self.mint_logs@);
        }
        r
    }

    /// One user's mint events, as (token, amount), oldest first.
    pub fn get_per_user_mint_logs(&self, user: &String) -> (r: Vec<(String, u64)>)
        ensures
            r@ == per_user_log(self.mint_log(), user@, self.mint_log().len() as int),
    {
        let n: usize = self.mint_logs.len();
        let mut r: Vec<(String, u64)> = Vec::new();
        let mut i: usize = 0;
        while i < n
            invariant
                0 <= i <= n,
                n == self.mint_logs@.len(),
                r@ == per_user_log(self.mint_logs@, user@, i as int),
            decreases n - i,
        {
            let e = &self.mint_logs[i];
            if e.0 == *user {
                r.push((e.1.clone(), e.2));
            }
            i = i + 1;
        }
        r
    }

    /// Total stablecoin supply across all users; pinned at the top of the
    /// amount type if the true sum exceeds it.
    pub fn compute_total_supply(&self) -> (total: u128)
        requires
            self.wf(),
        ensures
            self.total_supply_spec() <= u128::MAX ==> total as nat == self.total_supply_spec(),
            self.total_supply_spec() > u128::MAX ==> total == u128::MAX,
    {
        let n: usize = self.users.len();
        let mut acc: u128 = 0;
        let mut i: usize = 0;
        while i < n
            invariant
                0 <= i <= n,
                n == self.users@.len(),
                self.wf(),
                supply_prefix(self.users@, i as int) <= u128::MAX ==> acc as nat
                    == supply_prefix(self.users@, i as int),
                supply_prefix(self.users@, i as int) > u128::MAX ==> acc == u128::MAX,
            decreases n - i,
        {
            proof {
                lemma_account_sum_bound(*self, i as int);
            }
            let s: u128 = sum_total(&self.users[i].1.balances);
            if acc > u128::MAX - s {
                acc = u128::MAX;
            } else {
                acc = acc + s;
            }
            i = i + 1;
        }
        acc
    }

    /// Aggregated stablecoin state: the total supply and every balance
    /// entry of every user.
    pub fn get_stable_token(&self) -> (r: StableToken)
        requires
            self.wf(),
        ensures
            self.total_supply_spec() <= u128::MAX ==> r.total_supply as nat
                == self.total_supply_spec(),
            self.total_supply_spec() > u128::MAX ==> r.total_supply == u128::MAX,
            r.balances@ == self.all_balance_entries(),
    {
        let n: usize = self.users.len();
        let mut balances: Vec<StableBalanceEntry> = Vec::new();
        let mut i: usize = 0;
        while i < n
            invariant
                0 <= i <= n,
                n == self.users@.len(),
                balances@ == entries_prefix(self.users@, i as int),
            decreases n - i,
        {
            let b = &self.users[i].1.balances;
            let m: usize = b.len();
            let ghost prev = balances@;
            let mut j: usize = 0;
            while j < m
                invariant
                    0 <= j <= m,
                    m == b@.len(),
                    balances@ =~= prev + entry_seq(b@).subrange(0, j as int),
                decreases m - j,
            {
                balances.push(StableBalanceEntry { token: b[j].0.clone(), value: b[j].1 });
                proof {
                    assert(balances@ =~= prev + entry_seq(b@).subrange(0, j + 1 as int));
                }
                j = j + 1;
            }
            proof {
                assert(entry_seq(b@).subrange(0, m as int) =~= entry_seq(b@));
                assert(balances@ =~= entries_prefix(self.users@, i + 1 as int));
            }
            i = i + 1;
        }
        let total_supply: u128 = self.compute_total_supply();
        StableToken { total_supply, balances }
    }
}

/// The ledger-wide collateral-policy invariant: every position, signed up
/// or not, carries at least the required collateral for what it borrowed.
/// Every operation preserves it except a ledger deposit, which credits the
/// shared balance pot that doubles as the borrowed aggregate.
pub open spec fn all_ratios_ok(p: DeFiPool) -> bool {
    forall|u: Seq<char>| #[trigger] p.ratio_ok(u)
}

/// The policy invariant survives an operation that touched one user and
/// kept (or established) that user's ratio.
proof fn lemma_ratios_from_frame(p1: DeFiPool, p2: DeFiPool, u: Seq<char>)
    requires
        others_unchanged(p1, p2, u),
        p1.ratio_ok(u) ==> p2.ratio_ok(u),
        all_ratios_ok(p1),
    ensures
        all_ratios_ok(p2),
{
    assert forall|u2: Seq<char>| #[trigger] p2.ratio_ok(u2) by {
        if u2 != u {
            assert(user_state_eq(p1, p2, u2));
            assert(p1.ratio_ok(u2));
        } else {
            assert(p1.ratio_ok(u));
        }
    }
}

/// The policy invariant survives an operation that touched no account.
proof fn lemma_ratios_same_users(p1: DeFiPool, p2: DeFiPool)
    requires
        forall|u: Seq<char>| #[trigger] user_state_eq(p1, p2, u),
        all_ratios_ok(p1),
    ensures
        all_ratios_ok(p2),
{
    assert forall|u2: Seq<char>| #[trigger] p2.ratio_ok(u2) by {
        assert(user_state_eq(p1, p2, u2));
        assert(p1.ratio_ok(u2));
    }
}

/// A deposit followed by a repayment of the same amount returns every
/// stablecoin balance in the ledger to its pre-deposit value. The premises
/// are exactly what `deposit_commit` and `repay` ensure on success.
pub proof fn lemma_deposit_repay_round_trip(
    p0: DeFiPool,
    p1: DeFiPool,
    p2: DeFiPool,
    u: Seq<char>,
    t: Seq<char>,
    amount: nat,
)
    requires
        p1.balance_of(u, t) == p0.balance_of(u, t) + amount,
        forall|t2: Seq<char>|
            t2 != t ==> #[trigger] p1.balance_of(u, t2) == p0.balance_of(u, t2),
        others_unchanged(p0, p1, u),
        p2.balance_of(u, t) + amount == p1.balance_of(u, t),
        forall|t2: Seq<char>|
            t2 != t ==> #[trigger] p2.balance_of(u, t2) == p1.balance_of(u, t2),
        others_unchanged(p1, p2, u),
    ensures
        forall|u2: Seq<char>, t2: Seq<char>|
            #[trigger] p2.balance_of(u2, t2) == p0.balance_of(u2, t2),
{
    assert forall|u2: Seq<char>, t2: Seq<char>|
        #[trigger] p2.balance_of(u2, t2) == p0.balance_of(u2, t2) by {
        if u2 != u {
            assert(user_state_eq(p0, p1, u2));
            assert(user_state_eq(p1, p2, u2));
        }
    }
}

/// Revert correctness: when phase 1 of a borrow committed a tentative
/// delta and the risk verdict came back high-risk, phase 3 subtracts
/// exactly that delta. Every balance, every collateral position and the
/// mint log end as they began — in particular, no mint event was recorded.
/// The premises are exactly what `borrow_phase1` ensures on a validated
/// borrow and what `borrow_phase3` ensures on a high-risk verdict.
pub proof fn lemma_borrow_revert(
    p0: DeFiPool,
    p1: DeFiPool,
    p2: DeFiPool,
    u: Seq<char>,
    t: Seq<char>,
    amount: nat,
)
    requires
        p1.balance_of(u, t) == p0.balance_of(u, t) + amount,
        forall|t2: Seq<char>|
            t2 != t ==> #[trigger] p1.balance_of(u, t2) == p0.balance_of(u, t2),
        forall|t2: Seq<char>|
            #[trigger] p1.collateral_of(u, t2) == p0.collateral_of(u, t2),
        others_unchanged(p0, p1, u),
        p1.mint_log() == p0.mint_log(),
        p2.balance_of(u, t) + amount == p1.balance_of(u, t),
        forall|t2: Seq<char>|
            t2 != t ==> #[trigger] p2.balance_of(u, t2) == p1.balance_of(u, t2),
        forall|t2: Seq<char>|
            #[trigger] p2.collateral_of(u, t2) == p1.collateral_of(u, t2),
        others_unchanged(p1, p2, u),
        p2.mint_log() == p1.mint_log(),
    ensures
        forall|u2: Seq<char>, t2: Seq<char>|
            #[trigger] p2.balance_of(u2, t2) == p0.balance_of(u2, t2),
        forall|u2: Seq<char>, t2: Seq<char>|
            #[trigger] p2.collateral_of(u2, t2) == p0.collateral_of(u2, t2),
        p2.mint_log() == p0.mint_log(),
{
    assert forall|u2: Seq<char>, t2: Seq<char>|
        #[trigger] p2.balance_of(u2, t2) == p0.balance_of(u2, t2) by {
        if u2 != u {
            assert(user_state_eq(p0, p1, u2));
            assert(user_state_eq(p1, p2, u2));
        }
    }
    assert forall|u2: Seq<char>, t2: Seq<char>|
        #[trigger] p2.collateral_of(u2, t2) == p0.collateral_of(u2, t2) by {
        if u2 != u {
            assert(user_state_eq(p0, p1, u2));
            assert(user_state_eq(p1, p2, u2));
        }
    }
}

/// The stablecoin sum of one account stays under the per-account bound.
proof fn lemma_account_sum_bound(p: DeFiPool, i: int)
    requires
        p.wf(),
        0 <= i < p.users@.len(),
    ensures
        sum_value(p.users@[i].1.balances@) <= max_supported_tokens() * (u64::MAX as nat),
{
    let a = p.users@[i].1;
    assert(account_wf(a, p.supported_tokens@));
    lemma_amap_len_bound(a.balances@, p.supported_tokens@);
    lemma_sum_bound_from(a.balances@, 0);
    assert(a.balances@.len() * (u64::MAX as nat) <= max_supported_tokens() * (u64::MAX as nat))
        by (nonlinear_arith)
        requires
            a.balances@.len() <= max_supported_tokens(),
    ;
}

} // verus!
