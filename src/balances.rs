use vstd::prelude::*;

use crate::types::{AccountId, AssetId};

verus! {

/// Amount recorded for `(asset, account)` in a list of entries; the last
/// matching entry wins and a missing entry reads as zero.
pub open spec fn amount_at(s: Seq<(u64, u64, u128)>, asset: u64, account: u64) -> nat
    decreases s.len(),
{
    if s.len() == 0 {
        0
    } else if s.last().0 == asset && s.last().1 == account {
        s.last().2 as nat
    } else {
        amount_at(s.drop_last(), asset, account)
    }
}

/// Sum of all amounts recorded for `asset`.
pub open spec fn total_at(s: Seq<(u64, u64, u128)>, asset: u64) -> int
    decreases s.len(),
{
    if s.len() == 0 {
        0
    } else {
        total_at(s.drop_last(), asset) + if s.last().0 == asset {
            s.last().2 as int
        } else {
            0int
        }
    }
}

/// No two entries share an `(asset, account)` key.
pub open spec fn keys_unique(s: Seq<(u64, u64, u128)>) -> bool {
    forall|i: int, j: int|
        0 <= i < j < s.len() ==> !(s[i].0 == s[j].0 && s[i].1 == s[j].1)
}

proof fn lemma_amount_found(s: Seq<(u64, u64, u128)>, k: int)
    requires
        keys_unique(s),
        0 <= k < s.len(),
    ensures
        amount_at(s, s[k].0, s[k].1) == s[k].2 as nat,
    decreases s.len(),
{
    if k < s.len() - 1 {
        let t = s.drop_last();
        assert(t[k] == s[k]);
        lemma_amount_found(t, k);
    }
}

proof fn lemma_amount_absent(s: Seq<(u64, u64, u128)>, asset: u64, account: u64)
    requires
        forall|i: int| 0 <= i < s.len() ==> !(#[trigger] s[i].0 == asset && s[i].1 == account),
    ensures
        amount_at(s, asset, account) == 0,
    decreases s.len(),
{
    if s.len() > 0 {
        let t = s.drop_last();
        assert forall|i: int| 0 <= i < t.len() implies !(#[trigger] t[i].0 == asset && t[i].1
            == account) by {
            assert(t[i] == s[i]);
        }
        lemma_amount_absent(t, asset, account);
    }
}

/// Every single amount is bounded by the total of its asset.
proof fn lemma_amount_le_total(s: Seq<(u64, u64, u128)>, asset: u64, account: u64)
    requires
        keys_unique(s),
    ensures
        amount_at(s, asset, account) <= total_at(s, asset),
        0 <= total_at(s, asset),
    decreases s.len(),
{
    if s.len() > 0 {
        lemma_amount_le_total(s.drop_last(), asset, account);
        if s.last().0 == asset && s.last().1 == account {
            lemma_total_nonneg(s.drop_last(), asset);
        }
    }
}

/// Two distinct holdings of one asset together stay within its total.
proof fn lemma_two_amounts_le_total(s: Seq<(u64, u64, u128)>, asset: u64, a: u64, b: u64)
    requires
        keys_unique(s),
        a != b,
    ensures
        amount_at(s, asset, a) + amount_at(s, asset, b) <= total_at(s, asset),
    decreases s.len(),
{
    if s.len() > 0 {
        let t = s.drop_last();
        if s.last().0 == asset && s.last().1 == a {
            lemma_amount_le_total(t, asset, b);
        } else if s.last().0 == asset && s.last().1 == b {
            lemma_amount_le_total(t, asset, a);
        } else {
            lemma_two_amounts_le_total(t, asset, a, b);
        }
    }
}

proof fn lemma_total_nonneg(s: Seq<(u64, u64, u128)>, asset: u64)
    ensures
        0 <= total_at(s, asset),
    decreases s.len(),
{
    if s.len() > 0 {
        lemma_total_nonneg(s.drop_last(), asset);
    }
}

proof fn lemma_total_update(s: Seq<(u64, u64, u128)>, k: int, v: u128, asset: u64)
    requires
        0 <= k < s.len(),
    ensures
        total_at(s.update(k, (s[k].0, s[k].1, v)), asset) == total_at(s, asset) + if s[k].0
            == asset {
            v - s[k].2
        } else {
            0int
        },
    decreases s.len(),
{
    let u = s.update(k, (s[k].0, s[k].1, v));
    if k == s.len() - 1 {
        assert(u.drop_last() =~= s.drop_last());
    } else {
        assert(u.drop_last() =~= s.drop_last().update(k, (s[k].0, s[k].1, v)));
        lemma_total_update(s.drop_last(), k, v, asset);
    }
}

/// Holdings of every account in every asset. An account without an entry
/// holds zero.
pub struct BalanceStore {
    entries: Vec<(AssetId, AccountId, u128)>,
}

impl BalanceStore {
    /// The amount of `asset` that `account` holds.
    pub closed spec fn balance(&self, asset: AssetId, account: AccountId) -> nat {
        amount_at(self.entries@, asset, account)
    }

    /// The sum over all accounts of their holdings of `asset`.
    pub closed spec fn total(&self, asset: AssetId) -> int {
        total_at(self.entries@, asset)
    }

    pub closed spec fn wf(&self) -> bool {
        keys_unique(self.entries@)
    }

    /// An empty store, in which every balance is zero.
    pub fn new() -> (r: Self)
        ensures
            r.wf(),
            forall|a: AssetId, c: AccountId| #[trigger] r.balance(a, c) == 0,
            forall|a: AssetId| #[trigger] r.total(a) == 0,
    {
        BalanceStore { entries: Vec::new() }
    }

    fn find(&self, asset: AssetId, account: AccountId) -> (r: Option<usize>)
        ensures
            match r {
                Some(k) => k < self.entries@.len() && self.entries@[k as int].0 == asset
                    && self.entries@[k as int].1 == account,
                None => forall|i: int|
                    0 <= i < self.entries@.len() ==> !(#[trigger] self.entries@[i].0 == asset
                        && self.entries@[i].1 == account),
            },
    {
        let mut i: usize = 0;
        while i < self.entries.len()
            invariant
                i <= self.entries@.len(),
                forall|j: int|
                    0 <= j < i ==> !(#[trigger] self.entries@[j].0 == asset
                        && self.entries@[j].1 == account),
            decreases self.entries@.len() - i,
        {
            if self.entries[i].0 == asset && self.entries[i].1 == account {
                return Some(i);
            }
            i = i + 1;
        }
        None
    }

    /// The amount of `asset` that `account` holds; zero when nothing was recorded.
    pub fn get(&self, asset: AssetId, account: AccountId) -> (r: u128)
        requires
            self.wf(),
        ensures
            r as nat == self.balance(asset, account),
    {
        match self.find(asset, account) {
            Some(k) => {
                proof {
                    lemma_amount_found(self.entries@, k as int);
                }
                self.entries[k].2
            },
            None => {
                proof {
                    lemma_amount_absent(self.entries@, asset, account);
                }
                0
            },
        }
    }

    /// A single balance never exceeds the total of its asset.
    pub proof fn lemma_balance_le_total(&self, asset: AssetId, account: AccountId)
        requires
            self.wf(),
        ensures
            self.balance(asset, account) <= self.total(asset),
    {
        lemma_amount_le_total(self.entries@, asset, account);
    }

    /// Two holdings of distinct accounts in one asset never exceed its total
    /// together.
    pub proof fn lemma_two_balances_le_total(&self, asset: AssetId, a: AccountId, b: AccountId)
        requires
            self.wf(),
            a != b,
        ensures
            self.balance(asset, a) + self.balance(asset, b) <= self.total(asset),
    {
        lemma_two_amounts_le_total(self.entries@, asset, a, b);
    }

    /// Records `value` as the holding of `account` in `asset`.
    pub(crate) fn set(&mut self, asset: AssetId, account: AccountId, value: u128)
        requires
            old(self).wf(),
        ensures
            final(self).wf(),
            final(self).balance(asset, account) == value,
            forall|a: AssetId, c: AccountId|
                !(a == asset && c == account) ==> #[trigger] final(self).balance(a, c)
                    == old(self).balance(a, c),
            final(self).total(asset) == old(self).total(asset) - old(self).balance(asset, account)
                + value,
            forall|a: AssetId| a != asset ==> #[trigger] final(self).total(a) == old(self).total(a),
    {
        let ghost s = self.entries@;
        match self.find(asset, account) {
            Some(k) => {
                proof {
                    lemma_amount_found(s, k as int);
                    assert forall|a: AssetId| #[trigger] total_at(s.update(k as int, (asset, account, value)), a)
                        == total_at(s, a) + if a == asset { value - s[k as int].2 } else { 0int } by {
                        lemma_total_update(s, k as int, value, a);
                    }
                }
                self.entries.set(k, (asset, account, value));
                proof {
                    let u = self.entries@;
                    assert(u =~= s.update(k as int, (asset, account, value)));
                    assert(keys_unique(u)) by {
                        assert forall|i: int, j: int| 0 <= i < j < u.len() implies !(u[i].0 == u[j].0
                            && u[i].1 == u[j].1) by {
                            assert(u[i].0 == s[i].0 && u[i].1 == s[i].1);
                            assert(u[j].0 == s[j].0 && u[j].1 == s[j].1);
                        }
                    }
                    lemma_amount_found(u, k as int);
                    assert forall|a: AssetId, c: AccountId|
                        !(a == asset && c == account) implies #[trigger] amount_at(u, a, c)
                        == amount_at(s, a, c) by {
                        if exists|i: int| 0 <= i < s.len() && s[i].0 == a && s[i].1 == c {
                            let i = choose|i: int| 0 <= i < s.len() && s[i].0 == a && s[i].1 == c;
                            lemma_amount_found(s, i);
                            lemma_amount_found(u, i);
                        } else {
                            lemma_amount_absent(s, a, c);
                            assert forall|i: int| 0 <= i < u.len() implies !(#[trigger] u[i].0 == a
                                && u[i].1 == c) by {
                                assert(u[i].0 == s[i].0 && u[i].1 == s[i].1);
                            }
                            lemma_amount_absent(u, a, c);
                        }
                    }
                }
            },
            None => {
                proof {
                    lemma_amount_absent(s, asset, account);
                }
                self.entries.push((asset, account, value));
                proof {
                    let u = self.entries@;
                    assert(u.drop_last() =~= s);
                    assert(keys_unique(u));
                }
            },
        }
    }
}

} // verus!
