//! Keyed storage used throughout the ledger: association lists from a string
//! key to a value, kept free of duplicate keys. All map lookups default to
//! zero for an absent key rather than erroring.

use vstd::prelude::*;
use vstd::seq_lib::*;
use vstd::set_lib::lemma_len_subset;
use crate::oracle::{price_spec, max_price, lemma_price_bounded, token_price};

verus! {

/// Index of the first entry whose key is `key`, searching from `lo`; -1 if none.
pub open spec fn amap_idx<V>(s: Seq<(String, V)>, key: Seq<char>, lo: int) -> int
    decreases s.len() - lo,
{
    if lo < 0 || lo >= s.len() {
        -1
    } else if s[lo].0@ == key {
        lo
    } else {
        amap_idx(s, key, lo + 1)
    }
}

/// Whether some entry carries the key.
pub open spec fn amap_has<V>(s: Seq<(String, V)>, key: Seq<char>) -> bool {
    amap_idx(s, key, 0) >= 0
}

/// No two entries share a key.
pub open spec fn amap_uniq<V>(s: Seq<(String, V)>) -> bool {
    forall|i: int, j: int|
        0 <= i < j < s.len() ==> (#[trigger] s[i]).0@ != (#[trigger] s[j]).0@
}

/// What `amap_idx` returns: the first match, or -1 when there is none.
pub proof fn lemma_amap_idx_props<V>(s: Seq<(String, V)>, key: Seq<char>, lo: int)
    requires
        0 <= lo <= s.len(),
    ensures
        ({
            let r = amap_idx(s, key, lo);
            &&& r >= -1
            &&& r == -1 ==> forall|m: int| lo <= m < s.len() ==> (#[trigger] s[m]).0@ != key
            &&& r >= 0 ==> lo <= r < s.len() && s[r].0@ == key && (forall|m: int|
                lo <= m < r ==> (#[trigger] s[m]).0@ != key)
        }),
    decreases s.len() - lo,
{
    if lo < s.len() && s[lo].0@ != key {
        lemma_amap_idx_props::<V>(s, key, lo + 1);
    }
}

/// Replacing an entry with one carrying the same key moves no index.
pub proof fn lemma_amap_update_key<V>(s: Seq<(String, V)>, j: int, e: (String, V))
    requires
        0 <= j < s.len(),
        e.0@ == s[j].0@,
    ensures
        forall|k: Seq<char>| #[trigger] amap_idx(s.update(j, e), k, 0) == amap_idx(s, k, 0),
        amap_uniq(s) ==> amap_uniq(s.update(j, e)),
{
    let s2 = s.update(j, e);
    assert forall|k: Seq<char>| #[trigger] amap_idx(s2, k, 0) == amap_idx(s, k, 0) by {
        lemma_amap_idx_props::<V>(s, k, 0);
        lemma_amap_idx_props::<V>(s2, k, 0);
        let r1 = amap_idx(s, k, 0);
        let r2 = amap_idx(s2, k, 0);
        assert(forall|m: int| 0 <= m < s.len() ==> (#[trigger] s2[m]).0@ == s[m].0@);
        if r1 != r2 {
            if r1 == -1 {
                assert(s2[r2].0@ == k);
                assert(false);
            } else if r2 == -1 {
                assert(s[r1].0@ == k);
                assert(s2[r1].0@ == k);
                assert(false);
            } else if r1 < r2 {
                assert(s2[r1].0@ != k);
                assert(false);
            } else {
                assert(s[r2].0@ != k);
                assert(false);
            }
        }
    }
}

/// Appending a fresh entry leaves old keys in place and indexes the new one last.
pub proof fn lemma_amap_push<V>(s: Seq<(String, V)>, e: (String, V))
    ensures
        forall|k: Seq<char>| #[trigger] amap_idx(s.push(e), k, 0) == (if amap_has(s, k) {
            amap_idx(s, k, 0)
        } else if e.0@ == k {
            s.len() as int
        } else {
            -1
        }),
        amap_uniq(s) && !amap_has(s, e.0@) ==> amap_uniq(s.push(e)),
{
    let s2 = s.push(e);
    assert forall|k: Seq<char>| #[trigger] amap_idx(s2, k, 0) == (if amap_has(s, k) {
        amap_idx(s, k, 0)
    } else if e.0@ == k {
        s.len() as int
    } else {
        -1
    }) by {
        lemma_amap_idx_props::<V>(s, k, 0);
        lemma_amap_idx_props::<V>(s2, k, 0);
        let r1 = amap_idx(s, k, 0);
        let r2 = amap_idx(s2, k, 0);
        assert(forall|m: int| 0 <= m < s.len() ==> (#[trigger] s2[m]).0 == s[m].0);
        assert(s2[s.len() as int].0 == e.0);
        if r1 >= 0 {
            if r2 == -1 {
                assert(s2[r1].0@ == k);
                assert(false);
            }
            if r2 < r1 {
                assert(s[r2].0@ != k);
                assert(false);
            }
            if r1 < r2 {
                assert(s2[r1].0@ == k);
                assert(false);
            }
        } else {
            if e.0@ == k {
                if r2 == -1 {
                    assert(s2[s.len() as int].0@ == k);
                    assert(false);
                }
                if r2 < s.len() {
                    assert(s[r2].0@ == k);
                    assert(false);
                }
            } else {
                if r2 >= 0 {
                    if r2 < s.len() {
                        assert(s[r2].0@ == k);
                    } else {
                        assert(s2[r2].0@ == e.0@);
                    }
                    assert(false);
                }
            }
        }
    }
    if amap_uniq(s) && !amap_has(s, e.0@) {
        lemma_amap_idx_props::<V>(s, e.0@, 0);
        assert forall|i: int, j: int|
            0 <= i < j < s2.len() implies (#[trigger] s2[i]).0@ != (#[trigger] s2[j]).0@ by {
            if j == s.len() {
                assert(s2[i].0 == s[i].0);
            }
        }
    }
}

/// Find the entry carrying the key.
pub fn amap_find<V>(v: &Vec<(String, V)>, key: &String) -> (r: Option<usize>)
    ensures
        match r {
            Some(i) => i as int == amap_idx(v@, key@, 0) && i < v@.len() && v@[i as int].0@
                == key@,
            None => amap_idx(v@, key@, 0) == -1,
        },
{
    let n: usize = v.len();
    let mut i: usize = 0;
    while i < n
        invariant
            0 <= i <= n,
            n == v@.len(),
            amap_idx(v@, key@, 0) == amap_idx(v@, key@, i as int),
        decreases n - i,
    {
        if v[i].0 == *key {
            return Some(i);
        }
        i = i + 1;
    }
    None
}

/// Value stored under a key, if any.
pub open spec fn amap_val<V>(s: Seq<(String, V)>, key: Seq<char>) -> Option<V> {
    let i = amap_idx(s, key, 0);
    if i >= 0 {
        Some(s[i].1)
    } else {
        None
    }
}

/// Replacing the entry at `j` with one of the same key rewrites that key's
/// value and no other.
pub proof fn lemma_amap_val_update<V>(s: Seq<(String, V)>, j: int, e: (String, V))
    requires
        0 <= j < s.len(),
        e.0@ == s[j].0@,
        amap_uniq(s),
    ensures
        amap_val(s.update(j, e), s[j].0@) == Some(e.1),
        forall|k: Seq<char>|
            k != s[j].0@ ==> #[trigger] amap_val(s.update(j, e), k) == amap_val(s, k),
        forall|k: Seq<char>| #[trigger] amap_has(s.update(j, e), k) == amap_has(s, k),
        amap_uniq(s.update(j, e)),
{
    let s2 = s.update(j, e);
    lemma_amap_update_key(s, j, e);
    lemma_amap_idx_props(s, s[j].0@, 0);
    assert(amap_idx(s, s[j].0@, 0) == j);
    assert forall|k: Seq<char>|
        k != s[j].0@ implies #[trigger] amap_val(s2, k) == amap_val(s, k) by {
        lemma_amap_idx_props(s, k, 0);
        let m = amap_idx(s, k, 0);
        if m >= 0 {
            assert(s[m].0@ == k);
            assert(m != j);
            assert(s2[m] == s[m]);
        }
    }
}

/// Appending an entry with a fresh key gives that key its value and leaves
/// every other key untouched.
pub proof fn lemma_amap_val_push_new<V>(s: Seq<(String, V)>, e: (String, V))
    requires
        amap_uniq(s),
        !amap_has(s, e.0@),
    ensures
        amap_val(s.push(e), e.0@) == Some(e.1),
        forall|k: Seq<char>|
            k != e.0@ ==> #[trigger] amap_val(s.push(e), k) == amap_val(s, k),
        forall|k: Seq<char>|
            #[trigger] amap_has(s.push(e), k) == (amap_has(s, k) || k == e.0@),
        amap_uniq(s.push(e)),
{
    let s2 = s.push(e);
    lemma_amap_push(s, e);
    assert forall|k: Seq<char>|
        k != e.0@ implies #[trigger] amap_val(s2, k) == amap_val(s, k) by {
        lemma_amap_idx_props(s, k, 0);
        let m = amap_idx(s, k, 0);
        if m >= 0 {
            assert(s2[m] == s[m]);
        }
    }
}

/// Amount stored under a token key; zero when the key is absent.
pub open spec fn tmap_get(s: Seq<(String, u64)>, key: Seq<char>) -> nat {
    match amap_val(s, key) {
        Some(a) => a as nat,
        None => 0,
    }
}

/// Replacing the entry at `j` with one of the same key rewrites that key's
/// amount and no other.
pub proof fn lemma_tmap_update(s: Seq<(String, u64)>, j: int, e: (String, u64))
    requires
        0 <= j < s.len(),
        e.0@ == s[j].0@,
        amap_uniq(s),
    ensures
        tmap_get(s.update(j, e), s[j].0@) == e.1 as nat,
        forall|k: Seq<char>|
            k != s[j].0@ ==> #[trigger] tmap_get(s.update(j, e), k) == tmap_get(s, k),
        forall|k: Seq<char>| #[trigger] amap_has(s.update(j, e), k) == amap_has(s, k),
        amap_uniq(s.update(j, e)),
{
    lemma_amap_val_update(s, j, e);
    assert forall|k: Seq<char>|
        k != s[j].0@ implies #[trigger] tmap_get(s.update(j, e), k) == tmap_get(s, k) by {
        assert(amap_val(s.update(j, e), k) == amap_val(s, k));
    }
}

/// Appending an entry with a fresh key gives that key its amount and leaves
/// every other key untouched.
pub proof fn lemma_tmap_push_new(s: Seq<(String, u64)>, e: (String, u64))
    requires
        amap_uniq(s),
        !amap_has(s, e.0@),
    ensures
        tmap_get(s.push(e), e.0@) == e.1 as nat,
        forall|k: Seq<char>|
            k != e.0@ ==> #[trigger] tmap_get(s.push(e), k) == tmap_get(s, k),
        forall|k: Seq<char>|
            #[trigger] amap_has(s.push(e), k) == (amap_has(s, k) || k == e.0@),
        amap_uniq(s.push(e)),
{
    lemma_amap_val_push_new(s, e);
    assert forall|k: Seq<char>|
        k != e.0@ implies #[trigger] tmap_get(s.push(e), k) == tmap_get(s, k) by {
        assert(amap_val(s.push(e), k) == amap_val(s, k));
    }
}

/// Amount stored under a token key; zero when the key is absent.
pub fn tmap_read(v: &Vec<(String, u64)>, key: &String) -> (amount: u64)
    ensures
        amount as nat == tmap_get(v@, key@),
{
    match amap_find(v, key) {
        Some(i) => v[i].1,
        None => 0,
    }
}

/// Add `amount` to the entry under `key`, creating the entry when absent.
/// Fails, mutating nothing, when the sum would not fit the amount type.
pub fn tmap_add(v: &mut Vec<(String, u64)>, key: &String, amount: u64) -> (ok: bool)
    requires
        amap_uniq(old(v)@),
    ensures
        amap_uniq(final(v)@),
        ok == (tmap_get(old(v)@, key@) + amount <= u64::MAX),
        !ok ==> final(v)@ == old(v)@,
        ok ==> tmap_get(final(v)@, key@) == tmap_get(old(v)@, key@) + amount,
        ok ==> forall|k: Seq<char>|
            k != key@ ==> #[trigger] tmap_get(final(v)@, k) == tmap_get(old(v)@, k),
        ok ==> forall|k: Seq<char>|
            #[trigger] amap_has(final(v)@, k) == (amap_has(old(v)@, k) || k == key@),
        ok ==> usd_value(final(v)@) == usd_value(old(v)@) + (amount as nat) * price_spec(key@),
        ok ==> sum_value(final(v)@) == sum_value(old(v)@) + amount,
{
    match amap_find(v, key) {
        Some(i) => {
            let cur: u64 = v[i].1;
            if amount > u64::MAX - cur {
                return false;
            }
            let name: String = v[i].0.clone();
            let ghost s = v@;
            v[i] = (name, cur + amount);
            proof {
                lemma_tmap_update(s, i as int, v@[i as int]);
                lemma_usd_update_from(s, i as int, v@[i as int], 0);
                lemma_sum_update_from(s, i as int, v@[i as int], 0);
                let p = price_spec(key@);
                assert((cur + amount) as nat * p == (cur as nat) * p + (amount as nat) * p)
                    by (nonlinear_arith);
            }
            true
        },
        None => {
            let ghost s = v@;
            v.push((key.clone(), amount));
            proof {
                lemma_tmap_push_new(s, v@[s.len() as int]);
                lemma_usd_push_from(s, v@[s.len() as int], 0);
                lemma_sum_push_from(s, v@[s.len() as int], 0);
            }
            true
        },
    }
}

/// Subtract `amount` from the entry under `key`. Fails, mutating nothing,
/// when the stored amount is smaller than `amount`.
pub fn tmap_sub(v: &mut Vec<(String, u64)>, key: &String, amount: u64) -> (ok: bool)
    requires
        amap_uniq(old(v)@),
    ensures
        amap_uniq(final(v)@),
        ok == (amount as nat <= tmap_get(old(v)@, key@)),
        !ok ==> final(v)@ == old(v)@,
        ok ==> tmap_get(final(v)@, key@) == tmap_get(old(v)@, key@) - amount,
        ok ==> forall|k: Seq<char>|
            k != key@ ==> #[trigger] tmap_get(final(v)@, k) == tmap_get(old(v)@, k),
        ok ==> forall|k: Seq<char>| #[trigger] amap_has(final(v)@, k) == amap_has(old(v)@, k),
        ok ==> usd_value(final(v)@) + (amount as nat) * price_spec(key@) == usd_value(old(v)@),
        ok ==> sum_value(final(v)@) + amount == sum_value(old(v)@),
{
    match amap_find(v, key) {
        Some(i) => {
            let cur: u64 = v[i].1;
            if cur < amount {
                return false;
            }
            let name: String = v[i].0.clone();
            let ghost s = v@;
            v[i] = (name, cur - amount);
            proof {
                lemma_tmap_update(s, i as int, v@[i as int]);
                lemma_usd_update_from(s, i as int, v@[i as int], 0);
                lemma_sum_update_from(s, i as int, v@[i as int], 0);
                let p = price_spec(key@);
                assert((cur - amount) as nat * p + (amount as nat) * p == (cur as nat) * p)
                    by (nonlinear_arith)
                    requires
                        cur >= amount,
                ;
            }
            true
        },
        None => amount == 0,
    }
}

/// Set the entry under `key` to exactly `amount`, creating it when absent.
pub fn tmap_set(v: &mut Vec<(String, u64)>, key: &String, amount: u64)
    requires
        amap_uniq(old(v)@),
    ensures
        amap_uniq(final(v)@),
        tmap_get(final(v)@, key@) == amount as nat,
        forall|k: Seq<char>|
            k != key@ ==> #[trigger] tmap_get(final(v)@, k) == tmap_get(old(v)@, k),
        forall|k: Seq<char>|
            #[trigger] amap_has(final(v)@, k) == (amap_has(old(v)@, k) || k == key@),
{
    match amap_find(v, key) {
        Some(i) => {
            let name: String = v[i].0.clone();
            let ghost s = v@;
            v[i] = (name, amount);
            proof {
                lemma_tmap_update(s, i as int, v@[i as int]);
            }
        },
        None => {
            let ghost s = v@;
            v.push((key.clone(), amount));
            proof {
                lemma_tmap_push_new(s, v@[s.len() as int]);
            }
        },
    }
}

/// Copy of a token-amount list, entry by entry.
pub fn tmap_clone(v: &Vec<(String, u64)>) -> (r: Vec<(String, u64)>)
    ensures
        r@ == v@,
{
    let mut r: Vec<(String, u64)> = Vec::new();
    let n: usize = v.len();
    let mut i: usize = 0;
    while i < n
        invariant
            0 <= i <= n,
            n == v@.len(),
            r@ == v@.subrange(0, i as int),
        decreases n - i,
    {
        r.push((v[i].0.clone(), v[i].1));
        proof {
            assert(r@ =~= v@.subrange(0, i + 1 as int));
        }
        i = i + 1;
    }
    proof {
        assert(r@ =~= v@);
    }
    r
}

/// USD value of the entries from position `i` on: each amount times the
/// oracle price of its token.
pub open spec fn usd_from(s: Seq<(String, u64)>, i: int) -> nat
    decreases s.len() - i,
{
    if i < 0 || i >= s.len() {
        0
    } else {
        (s[i].1 as nat) * price_spec(s[i].0@) + usd_from(s, i + 1)
    }
}

/// USD value of a whole token-amount list.
pub open spec fn usd_value(s: Seq<(String, u64)>) -> nat {
    usd_from(s, 0)
}

/// Changing one entry shifts the USD value by the difference of the entries.
pub proof fn lemma_usd_update_from(s: Seq<(String, u64)>, j: int, e: (String, u64), i: int)
    requires
        0 <= i <= s.len(),
        0 <= j < s.len(),
    ensures
        i <= j ==> usd_from(s.update(j, e), i) + s[j].1 * price_spec(s[j].0@) == usd_from(s, i)
            + e.1 * price_spec(e.0@),
        i > j ==> usd_from(s.update(j, e), i) == usd_from(s, i),
    decreases s.len() - i,
{
    if i < s.len() {
        lemma_usd_update_from(s, j, e, i + 1);
    }
}

/// Appending an entry adds its USD value.
pub proof fn lemma_usd_push_from(s: Seq<(String, u64)>, e: (String, u64), i: int)
    requires
        0 <= i <= s.len(),
    ensures
        usd_from(s.push(e), i) == usd_from(s, i) + e.1 * price_spec(e.0@),
    decreases s.len() - i,
{
    if i < s.len() {
        lemma_usd_push_from(s, e, i + 1);
    } else {
        assert(s.push(e)[i] == e);
        assert(usd_from(s.push(e), i + 1) == 0);
    }
}

/// The USD value of a list is at most one maximal position per entry.
pub proof fn lemma_usd_bound_from(s: Seq<(String, u64)>, i: int)
    requires
        0 <= i <= s.len(),
    ensures
        usd_from(s, i) <= (s.len() - i) * (u64::MAX as nat) * max_price(),
    decreases s.len() - i,
{
    if i < s.len() {
        lemma_usd_bound_from(s, i + 1);
        lemma_price_bounded(s[i].0@);
        assert(s[i].1 * price_spec(s[i].0@) <= (u64::MAX as nat) * max_price()) by {
            vstd::arithmetic::mul::lemma_mul_upper_bound(
                s[i].1 as int,
                u64::MAX as int,
                price_spec(s[i].0@) as int,
                max_price() as int,
            );
        }
        assert((s.len() - i) * (u64::MAX as nat) * max_price() == (u64::MAX as nat) * max_price()
            + (s.len() - (i + 1)) * (u64::MAX as nat) * max_price()) by (nonlinear_arith);
    }
}

/// Whether a token name stands in a token list.
pub open spec fn token_listed(toks: Seq<String>, k: Seq<char>) -> bool {
    exists|j: int| 0 <= j < toks.len() && (#[trigger] toks[j])@ == k
}

/// A duplicate-free list whose keys all stand in `toks` has at most
/// `toks.len()` entries.
pub proof fn lemma_amap_len_bound<V>(s: Seq<(String, V)>, toks: Seq<String>)
    requires
        amap_uniq(s),
        forall|i: int| 0 <= i < s.len() ==> token_listed(toks, (#[trigger] s[i]).0@),
    ensures
        s.len() <= toks.len(),
{
    broadcast use vstd::seq_lib::seq_to_set_is_finite;
    broadcast use vstd::set::group_set_axioms;

    let keys = Seq::new(s.len(), |i: int| s[i].0@);
    let tkeys = Seq::new(toks.len(), |j: int| toks[j]@);
    assert(keys.no_duplicates());
    keys.unique_seq_to_set();
    tkeys.lemma_cardinality_of_set();
    assert forall|x: Seq<char>| keys.to_set().contains(x) implies tkeys.to_set().contains(
        x,
    ) by {
        let i = choose|i: int| 0 <= i < keys.len() && keys[i] == x;
        assert(token_listed(toks, s[i].0@));
        let j = choose|j: int| 0 <= j < toks.len() && toks[j]@ == x;
        assert(tkeys[j] == x);
        assert(tkeys.contains(x));
    }
    assert(keys.to_set().subset_of(tkeys.to_set()));
    lemma_len_subset(keys.to_set(), tkeys.to_set());
}

/// Sum of the stored amounts from position `i` on, without prices.
pub open spec fn sum_from(s: Seq<(String, u64)>, i: int) -> nat
    decreases s.len() - i,
{
    if i < 0 || i >= s.len() {
        0
    } else {
        (s[i].1 as nat) + sum_from(s, i + 1)
    }
}

/// Sum of all stored amounts.
pub open spec fn sum_value(s: Seq<(String, u64)>) -> nat {
    sum_from(s, 0)
}

/// Changing one entry shifts the sum by the difference of the entries.
pub proof fn lemma_sum_update_from(s: Seq<(String, u64)>, j: int, e: (String, u64), i: int)
    requires
        0 <= i <= s.len(),
        0 <= j < s.len(),
    ensures
        i <= j ==> sum_from(s.update(j, e), i) + s[j].1
            == sum_from(s, i) + e.1,
        i > j ==> sum_from(s.update(j, e), i) == sum_from(s, i),
    decreases s.len() - i,
{
    if i < s.len() {
        lemma_sum_update_from(s, j, e, i + 1);
    }
}

/// Appending an entry adds its amount to the sum.
pub proof fn lemma_sum_push_from(s: Seq<(String, u64)>, e: (String, u64), i: int)
    requires
        0 <= i <= s.len(),
    ensures
        sum_from(s.push(e), i) == sum_from(s, i) + e.1,
    decreases s.len() - i,
{
    if i < s.len() {
        lemma_sum_push_from(s, e, i + 1);
    } else {
        assert(s.push(e)[i] == e);
        assert(sum_from(s.push(e), i + 1) == 0);
    }
}

/// The sum of a list is at most one maximal amount per entry.
pub proof fn lemma_sum_bound_from(s: Seq<(String, u64)>, i: int)
    requires
        0 <= i <= s.len(),
    ensures
        sum_from(s, i) <= (s.len() - i) * (u64::MAX as nat),
    decreases s.len() - i,
{
    if i < s.len() {
        lemma_sum_bound_from(s, i + 1);
        assert((s.len() - i) * (u64::MAX as nat) == (u64::MAX as nat) + (s.len() - (i + 1)) * (
        u64::MAX as nat)) by (nonlinear_arith);
    }
}

/// Total of the stored amounts of a token-amount list.
pub fn sum_total(v: &Vec<(String, u64)>) -> (total: u128)
    requires
        sum_value(v@) <= u128::MAX,
    ensures
        total as nat == sum_value(v@),
{
    let n: usize = v.len();
    let mut i: usize = 0;
    let mut acc: u128 = 0;
    while i < n
        invariant
            0 <= i <= n,
            n == v@.len(),
            sum_value(v@) <= u128::MAX,
            acc as nat + sum_from(v@, i as int) == sum_value(v@),
        decreases n - i,
    {
        acc = acc + (v[i].1 as u128);
        i = i + 1;
    }
    acc
}

/// Total USD value of a token-amount list.
pub fn usd_total(v: &Vec<(String, u64)>) -> (total: u128)
    requires
        usd_value(v@) <= u128::MAX,
    ensures
        total as nat == usd_value(v@),
{
    let n: usize = v.len();
    let mut i: usize = 0;
    let mut acc: u128 = 0;
    while i < n
        invariant
            0 <= i <= n,
            n == v@.len(),
            usd_value(v@) <= u128::MAX,
            acc as nat + usd_from(v@, i as int) == usd_value(v@),
        decreases n - i,
    {
        let price: u64 = token_price(&v[i].0);
        let item: u128 = (v[i].1 as u128) * (price as u128);
        proof {
            lemma_usd_bound_from(v@, i + 1 as int);
            assert(usd_from(v@, i as int) == v@[i as int].1 * price_spec(v@[i as int].0@)
                + usd_from(v@, i + 1 as int));
        }
        acc = acc + item;
        i = i + 1;
    }
    acc
}

} // verus!
