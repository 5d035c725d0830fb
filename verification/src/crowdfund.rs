//! Crowdfunding sub-ledger: a per-token contribution pool with per-user
//! accounting, independent of the main account store. No collateral or
//! risk checks apply to this path; minting to the contributor and the mint
//! log entry are handled by the caller through the pool's mint path.

use vstd::prelude::*;
use crate::store::{
    amap_find, amap_uniq, amap_val, lemma_amap_val_push_new, lemma_amap_val_update, tmap_add,
    tmap_get, tmap_read,
};

verus! {

/// One user's contribution of one token.
pub struct CrowdfundEntry {
    pub user: String,
    pub token: String,
    pub amount: u64,
}

/// The crowdfunding pool: global totals per token, and each user's
/// contributions per token.
pub struct CrowdfundingPool {
    funds: Vec<(String, u64)>,
    contributors: Vec<(String, Vec<(String, u64)>)>,
}

/// The contribution entries of one contributor, in storage order.
pub open spec fn cf_entry_seq(user: String, m: Seq<(String, u64)>) -> Seq<CrowdfundEntry> {
    Seq::new(m.len(), |j: int| CrowdfundEntry { user: user, token: m[j].0, amount: m[j].1 })
}

/// All contribution entries of the first `i` contributors.
pub open spec fn cf_prefix(s: Seq<(String, Vec<(String, u64)>)>, i: int) -> Seq<CrowdfundEntry>
    decreases i,
{
    if i <= 0 {
        Seq::empty()
    } else {
        cf_prefix(s, i - 1) + cf_entry_seq(s[i - 1].0, s[i - 1].1@)
    }
}

impl CrowdfundingPool {
    /// Internal invariant: duplicate-free keys at both levels.
    pub closed spec fn wf(self) -> bool {
        &&& amap_uniq(self.funds@)
        &&& amap_uniq(self.contributors@)
        &&& forall|i: int|
            0 <= i < self.contributors@.len() ==> amap_uniq(
                (#[trigger] self.contributors@[i]).1@,
            )
    }

    /// Global total contributed for a token; zero when absent.
    pub closed spec fn fund_of(self, t: Seq<char>) -> nat {
        tmap_get(self.funds@, t)
    }

    /// One user's contribution of one token; zero when absent.
    pub closed spec fn contribution_of(self, u: Seq<char>, t: Seq<char>) -> nat {
        match amap_val(self.contributors@, u) {
            Some(m) => tmap_get(m@, t),
            None => 0,
        }
    }

    /// Every contribution entry, contributor by contributor.
    pub closed spec fn all_entries(self) -> Seq<CrowdfundEntry> {
        cf_prefix(self.contributors@, self.contributors@.len() as int)
    }

    /// An empty crowdfunding pool.
    pub fn new() -> (p: CrowdfundingPool)
        ensures
            p.wf(),
            forall|t: Seq<char>| #[trigger] p.fund_of(t) == 0,
            forall|u: Seq<char>, t: Seq<char>| #[trigger] p.contribution_of(u, t) == 0,
            p.all_entries() == Seq::<CrowdfundEntry>::empty(),
    {
        CrowdfundingPool { funds: Vec::new(), contributors: Vec::new() }
    }

    /// Book a contribution: the global per-token total and the user's own
    /// per-token contribution both grow by the amount, atomically. Fails,
    /// mutating nothing, when either counter would no longer fit the
    /// amount type.
    pub fn contribute(&mut self, user: &String, token: &String, amount: u64) -> (ok: bool)
        requires
            old(self).wf(),
        ensures
            final(self).wf(),
            ok == (old(self).fund_of(token@) + amount <= u64::MAX as nat && old(
                self,
            ).contribution_of(user@, token@) + amount <= u64::MAX as nat),
            !ok ==> *final(self) == *old(self),
            ok ==> final(self).fund_of(token@) == old(self).fund_of(token@) + amount,
            ok ==> forall|t: Seq<char>|
                t != token@ ==> #[trigger] final(self).fund_of(t) == old(self).fund_of(t),
            ok ==> final(self).contribution_of(user@, token@) == old(self).contribution_of(
                user@,
                token@,
            ) + amount,
            ok ==> forall|u2: Seq<char>, t2: Seq<char>|
                u2 != user@ || t2 != token@ ==> #[trigger] final(self).contribution_of(u2, t2)
                    == old(self).contribution_of(u2, t2),
    {
        let fund_now: u64 = tmap_read(&self.funds, token);
        if amount > u64::MAX - fund_now {
            return false;
        }
        let contrib_now: u64 = match amap_find(&self.contributors, user) {
            Some(i) => tmap_read(&self.contributors[i].1, token),
            None => 0,
        };
        if amount > u64::MAX - contrib_now {
            return false;
        }
        let fund_ok = tmap_add(&mut self.funds, token, amount);
        proof {
            assert(fund_ok);
        }
        match amap_find(&self.contributors, user) {
            Some(i) => {
                let (uname, mut m) = self.contributors.remove(i);
                let contrib_ok = tmap_add(&mut m, token, amount);
                self.contributors.insert(i, (uname, m));
                proof {
                    assert(contrib_ok);
                    assert(self.contributors@ =~= old(self).contributors@.update(
                        i as int,
                        self.contributors@[i as int],
                    ));
                    lemma_amap_val_update(
                        old(self).contributors@,
                        i as int,
                        self.contributors@[i as int],
                    );
                }
            },
            None => {
                let mut m: Vec<(String, u64)> = Vec::new();
                let contrib_ok = tmap_add(&mut m, token, amount);
                let ghost s = self.contributors@;
                self.contributors.push((user.clone(), m));
                proof {
                    assert(contrib_ok);
                    lemma_amap_val_push_new(s, self.contributors@[s.len() as int]);
                }
            },
        }
        true
    }

    /// Global total contributed for a token.
    pub fn fund_total(&self, token: &String) -> (r: u64)
        ensures
            r as nat == self.fund_of(token@),
    {
        tmap_read(&self.funds, token)
    }

    /// Every user's every contribution, contributor by contributor.
    pub fn get_crowdfund_status(&self) -> (r: Vec<CrowdfundEntry>)
        ensures
            r@ == self.all_entries(),
    {
        let n: usize = self.contributors.len();
        let mut r: Vec<CrowdfundEntry> = Vec::new();
        let mut i: usize = 0;
        while i < n
            invariant
                0 <= i <= n,
                n == self.contributors@.len(),
                r@ == cf_prefix(self.contributors@, i as int),
            decreases n - i,
        {
            let user = &self.contributors[i].0;
            let m = &self.contributors[i].1;
            let k: usize = m.len();
            let ghost prev = r@;
            let mut j: usize = 0;
            while j < k
                invariant
                    0 <= j <= k,
                    k == m@.len(),
                    r@ =~= prev + cf_entry_seq(self.contributors@[i as int].0, m@).subrange(
                        0,
                        j as int,
                    ),
                    i < n,
                    n == self.contributors@.len(),
                    m == &self.contributors@[i as int].1,
                    user == &self.contributors@[i as int].0,
                decreases k - j,
            {
                r.push(
                    CrowdfundEntry { user: user.clone(), token: m[j].0.clone(), amount: m[j].1 },
                );
                proof {
                    assert(r@ =~= prev + cf_entry_seq(self.contributors@[i as int].0, m@).subrange(
                        0,
                        j + 1 as int,
                    ));
                }
                j = j + 1;
            }
            proof {
                assert(cf_entry_seq(self.contributors@[i as int].0, m@).subrange(0, k as int)
                    =~= cf_entry_seq(self.contributors@[i as int].0, m@));
                assert(r@ =~= cf_prefix(self.contributors@, i + 1 as int));
            }
            i = i + 1;
        }
        r
    }
}

} // verus!
