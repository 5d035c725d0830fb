//! The token contract's own ledger: per-owner balances, per-(owner, spender)
//! allowances, and the total supply, which at all times equals the sum of
//! the balances. Owners and spenders are carried as their textual
//! identities.

use vstd::prelude::*;
use crate::store::{
    amap_find, amap_uniq, amap_val, lemma_amap_val_push_new, lemma_amap_val_update, sum_value,
    tmap_add, tmap_get, tmap_read, tmap_set, tmap_sub,
};

verus! {

/// One granted allowance: who may spend, and how much.
pub struct Allowance {
    pub spender: String,
    pub amount: u64,
}

/// The token contract's state.
pub struct DIP20Token {
    name: String,
    symbol: String,
    decimals: u8,
    total_supply: u128,
    balances: Vec<(String, u64)>,
    allowances: Vec<(String, Vec<(String, u64)>)>,
    pool_canister: Option<String>,
}

impl DIP20Token {
    /// Internal invariant: duplicate-free keys, and a total supply that is
    /// exactly the sum of all balances.
    pub closed spec fn wf(self) -> bool {
        &&& amap_uniq(self.balances@)
        &&& self.decimals == 8
        &&& self.total_supply as nat == sum_value(self.balances@)
        &&& amap_uniq(self.allowances@)
        &&& forall|i: int|
            0 <= i < self.allowances@.len() ==> amap_uniq((#[trigger] self.allowances@[i]).1@)
    }

    /// Balance held by an owner; zero when absent.
    pub closed spec fn balance_of_spec(self, owner: Seq<char>) -> nat {
        tmap_get(self.balances@, owner)
    }

    /// Amount a spender may draw from an owner; zero when absent.
    pub closed spec fn allowance_spec(self, owner: Seq<char>, spender: Seq<char>) -> nat {
        match amap_val(self.allowances@, owner) {
            Some(m) => tmap_get(m@, spender),
            None => 0,
        }
    }

    /// The total supply.
    pub closed spec fn supply(self) -> nat {
        self.total_supply as nat
    }

    /// Sum of every owner's balance.
    pub closed spec fn balances_total(self) -> nat {
        sum_value(self.balances@)
    }

    /// The token's display name.
    pub closed spec fn name_view(self) -> Seq<char> {
        self.name@
    }

    /// The token's ticker symbol.
    pub closed spec fn symbol_view(self) -> Seq<char> {
        self.symbol@
    }

    /// A fresh token ledger with the fixed ICP identity and no supply.
    pub fn new() -> (t: DIP20Token)
        ensures
            t.wf(),
            t.name_view() == "ICP Token"@,
            t.symbol_view() == "ICP"@,
            t.supply() == 0,
            forall|o: Seq<char>| #[trigger] t.balance_of_spec(o) == 0,
            forall|o: Seq<char>, s: Seq<char>| #[trigger] t.allowance_spec(o, s) == 0,
    {
        DIP20Token {
            name: "ICP Token".to_owned(),
            symbol: "ICP".to_owned(),
            decimals: 8,
            total_supply: 0,
            balances: Vec::new(),
            allowances: Vec::new(),
            pool_canister: None,
        }
    }

    /// Record which pool contract is in charge; informational only.
    pub fn set_pool_canister(&mut self, pool: &String) -> (ok: bool)
        requires
            old(self).wf(),
        ensures
            final(self).wf(),
            final(self).name_view() == old(self).name_view(),
            final(self).symbol_view() == old(self).symbol_view(),
            ok,
            final(self).supply() == old(self).supply(),
            forall|o: Seq<char>|
                #[trigger] final(self).balance_of_spec(o) == old(self).balance_of_spec(o),
            forall|o: Seq<char>, s: Seq<char>|
                #[trigger] final(self).allowance_spec(o, s) == old(self).allowance_spec(o, s),
    {
        self.pool_canister = Some(pool.clone());
        true
    }

    /// The token's display name.
    pub fn name(&self) -> (r: String)
        ensures
            r@ == self.name_view(),
    {
        self.name.clone()
    }

    /// The token's ticker symbol.
    pub fn symbol(&self) -> (r: String)
        ensures
            r@ == self.symbol_view(),
    {
        self.symbol.clone()
    }

    /// Number of decimal places of the token.
    pub fn decimals(&self) -> (r: u8)
        requires
            self.wf(),
        ensures
            r == 8,
    {
        self.decimals
    }

    /// The total supply.
    pub fn total_supply(&self) -> (r: u128)
        ensures
            r as nat == self.supply(),
    {
        self.total_supply
    }

    /// Balance held by an owner.
    #[allow(non_snake_case)]
    pub fn balanceOf(&self, owner: &String) -> (r: u64)
        ensures
            r as nat == self.balance_of_spec(owner@),
    {
        tmap_read(&self.balances, owner)
    }

    /// Amount a spender may draw from an owner.
    pub fn allowance(&self, owner: &String, spender: &String) -> (r: u64)
        ensures
            r as nat == self.allowance_spec(owner@, spender@),
    {
        match amap_find(&self.allowances, owner) {
            Some(i) => tmap_read(&self.allowances[i].1, spender),
            None => 0,
        }
    }

    /// Grant a spender an absolute allowance over the caller's funds.
    pub fn approve(&mut self, caller: &String, spender: &String, amount: u64) -> (ok: bool)
        requires
            old(self).wf(),
        ensures
            final(self).wf(),
            final(self).name_view() == old(self).name_view(),
            final(self).symbol_view() == old(self).symbol_view(),
            ok,
            final(self).allowance_spec(caller@, spender@) == amount as nat,
            forall|o: Seq<char>, s: Seq<char>|
                o != caller@ || s != spender@ ==> #[trigger] final(self).allowance_spec(o, s)
                    == old(self).allowance_spec(o, s),
            final(self).supply() == old(self).supply(),
            forall|o: Seq<char>|
                #[trigger] final(self).balance_of_spec(o) == old(self).balance_of_spec(o),
    {
        match amap_find(&self.allowances, caller) {
            Some(i) => {
                let (owner, mut m) = self.allowances.remove(i);
                tmap_set(&mut m, spender, amount);
                self.allowances.insert(i, (owner, m));
                proof {
                    assert(self.allowances@ =~= old(self).allowances@.update(
                        i as int,
                        self.allowances@[i as int],
                    ));
                    lemma_amap_val_update(
                        old(self).allowances@,
                        i as int,
                        self.allowances@[i as int],
                    );
                }
            },
            None => {
                let mut m: Vec<(String, u64)> = Vec::new();
                tmap_set(&mut m, spender, amount);
                let ghost s = self.allowances@;
                self.allowances.push((caller.clone(), m));
                proof {
                    lemma_amap_val_push_new(s, self.allowances@[s.len() as int]);
                }
            },
        }
        true
    }

    /// Move funds from one owner to another. Fails, mutating nothing, when
    /// the sender's balance is short or the recipient's balance would no
    /// longer fit the amount type. A self-transfer of a covered amount
    /// succeeds and changes nothing.
    pub fn transfer(&mut self, from: &String, to: &String, amount: u64) -> (ok: bool)
        requires
            old(self).wf(),
        ensures
            final(self).wf(),
            final(self).name_view() == old(self).name_view(),
            final(self).symbol_view() == old(self).symbol_view(),
            ok == (amount as nat <= old(self).balance_of_spec(from@) && (from@ == to@ || old(
                self,
            ).balance_of_spec(to@) + amount <= u64::MAX as nat)),
            !ok ==> *final(self) == *old(self),
            ok && from@ == to@ ==> forall|o: Seq<char>|
                #[trigger] final(self).balance_of_spec(o) == old(self).balance_of_spec(o),
            ok && from@ != to@ ==> final(self).balance_of_spec(from@) + amount == old(
                self,
            ).balance_of_spec(from@) && final(self).balance_of_spec(to@) == old(
                self,
            ).balance_of_spec(to@) + amount,
            ok && from@ != to@ ==> forall|o: Seq<char>|
                o != from@ && o != to@ ==> #[trigger] final(self).balance_of_spec(o) == old(
                    self,
                ).balance_of_spec(o),
            final(self).supply() == old(self).supply(),
            forall|o: Seq<char>, s: Seq<char>|
                #[trigger] final(self).allowance_spec(o, s) == old(self).allowance_spec(o, s),
    {
        let bal_from: u64 = tmap_read(&self.balances, from);
        if bal_from < amount {
            return false;
        }
        if *from == *to {
            return true;
        }
        let bal_to: u64 = tmap_read(&self.balances, to);
        if amount > u64::MAX - bal_to {
            return false;
        }
        let sub_ok = tmap_sub(&mut self.balances, from, amount);
        let add_ok = tmap_add(&mut self.balances, to, amount);
        proof {
            assert(sub_ok);
            assert(add_ok);
        }
        true
    }

    /// Draw on an allowance: move funds from `from` to `to` on behalf of
    /// `caller`, and reduce `caller`'s allowance by the amount. Fails,
    /// mutating nothing, when the allowance or the balance is short, or
    /// the recipient's balance would no longer fit the amount type.
    #[allow(non_snake_case)]
    pub fn transferFrom(
        &mut self,
        caller: &String,
        from: &String,
        to: &String,
        amount: u64,
    ) -> (ok: bool)
        requires
            old(self).wf(),
        ensures
            final(self).wf(),
            final(self).name_view() == old(self).name_view(),
            final(self).symbol_view() == old(self).symbol_view(),
            ok == (amount as nat <= old(self).allowance_spec(from@, caller@) && amount as nat
                <= old(self).balance_of_spec(from@) && (from@ == to@ || old(
                self,
            ).balance_of_spec(to@) + amount <= u64::MAX as nat)),
            !ok ==> *final(self) == *old(self),
            ok ==> final(self).allowance_spec(from@, caller@) + amount == old(
                self,
            ).allowance_spec(from@, caller@),
            ok ==> forall|o: Seq<char>, s: Seq<char>|
                o != from@ || s != caller@ ==> #[trigger] final(self).allowance_spec(o, s) == old(
                    self,
                ).allowance_spec(o, s),
            ok && from@ == to@ ==> forall|o: Seq<char>|
                #[trigger] final(self).balance_of_spec(o) == old(self).balance_of_spec(o),
            ok && from@ != to@ ==> final(self).balance_of_spec(from@) + amount == old(
                self,
            ).balance_of_spec(from@) && final(self).balance_of_spec(to@) == old(
                self,
            ).balance_of_spec(to@) + amount,
            ok && from@ != to@ ==> forall|o: Seq<char>|
                o != from@ && o != to@ ==> #[trigger] final(self).balance_of_spec(o) == old(
                    self,
                ).balance_of_spec(o),
            final(self).supply() == old(self).supply(),
    {
        let allowed: u64 = self.allowance(from, caller);
        if allowed < amount {
            return false;
        }
        let bal_from: u64 = tmap_read(&self.balances, from);
        if bal_from < amount {
            return false;
        }
        if *from != *to {
            let bal_to: u64 = tmap_read(&self.balances, to);
            if amount > u64::MAX - bal_to {
                return false;
            }
            let sub_ok = tmap_sub(&mut self.balances, from, amount);
            let add_ok = tmap_add(&mut self.balances, to, amount);
            proof {
                assert(sub_ok);
                assert(add_ok);
            }
        }
        match amap_find(&self.allowances, from) {
            Some(i) => {
                let (owner, mut m) = self.allowances.remove(i);
                let dec_ok = tmap_sub(&mut m, caller, amount);
                self.allowances.insert(i, (owner, m));
                proof {
                    assert(dec_ok);
                    assert(self.allowances@ =~= old(self).allowances@.update(
                        i as int,
                        self.allowances@[i as int],
                    ));
                    lemma_amap_val_update(
                        old(self).allowances@,
                        i as int,
                        self.allowances@[i as int],
                    );
                }
            },
            None => {
                proof {
                    assert(amount == 0);
                }
            },
        }
        true
    }

    /// Create new funds for an owner, growing the total supply by exactly
    /// the minted amount. Fails, mutating nothing, when either counter
    /// would no longer fit its type.
    pub fn mint(&mut self, to: &String, amount: u64) -> (ok: bool)
        requires
            old(self).wf(),
        ensures
            final(self).wf(),
            final(self).name_view() == old(self).name_view(),
            final(self).symbol_view() == old(self).symbol_view(),
            ok == (old(self).balance_of_spec(to@) + amount <= u64::MAX as nat && old(
                self,
            ).supply() + amount <= u128::MAX as nat),
            !ok ==> *final(self) == *old(self),
            ok ==> final(self).balance_of_spec(to@) == old(self).balance_of_spec(to@) + amount,
            ok ==> forall|o: Seq<char>|
                o != to@ ==> #[trigger] final(self).balance_of_spec(o) == old(
                    self,
                ).balance_of_spec(o),
            ok ==> final(self).supply() == old(self).supply() + amount,
            forall|o: Seq<char>, s: Seq<char>|
                #[trigger] final(self).allowance_spec(o, s) == old(self).allowance_spec(o, s),
    {
        let bal: u64 = tmap_read(&self.balances, to);
        if amount > u64::MAX - bal {
            return false;
        }
        if (amount as u128) > u128::MAX - self.total_supply {
            return false;
        }
        let add_ok = tmap_add(&mut self.balances, to, amount);
        self.total_supply = self.total_supply + (amount as u128);
        proof {
            assert(add_ok);
        }
        true
    }
}

/// The supply never drifts from the ledger: in every well-formed token
/// state, the total supply equals the sum of all balances. Transfers move
/// value without creating it; only minting grows both sides together.
pub proof fn lemma_supply_conservation(t: DIP20Token)
    requires
        t.wf(),
    ensures
        t.supply() == t.balances_total(),
{
}

} // verus!
