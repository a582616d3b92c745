//! Minimal fungible-asset ledger: the balance and reserve primitives that
//! votes are backed by, modeled per `(asset, account)` pair.
//!
//! `reserve` moves funds from free to reserved and fails on insufficient free
//! balance; `unreserve` moves them back, saturating at what is actually
//! reserved. Accounts not present in the ledger hold zero.

use vstd::prelude::*;

use crate::AccountId;
use crate::AssetId;
use crate::Balance;
use crate::Error;

verus! {

/// The free and reserved balance one account holds of one asset.
#[derive(Clone, Copy, PartialEq, Eq, Debug)]
pub struct AssetAccount {
    pub asset: AssetId,
    pub account: AccountId,
    pub free: Balance,
    pub reserved: Balance,
}

/// Entry `i` of `s` exists and is keyed by `(asset, account)`.
pub open spec fn key_at(s: Seq<AssetAccount>, i: int, asset: AssetId, account: AccountId) -> bool {
    0 <= i < s.len() && s[i].asset == asset && s[i].account == account
}

/// Some entry of `s` is keyed by `(asset, account)`.
pub open spec fn has_key(s: Seq<AssetAccount>, asset: AssetId, account: AccountId) -> bool {
    exists|i: int| key_at(s, i, asset, account)
}

/// The index of the entry keyed by `(asset, account)`.
pub open spec fn idx_of(s: Seq<AssetAccount>, asset: AssetId, account: AccountId) -> int {
    choose|i: int| key_at(s, i, asset, account)
}

/// No two entries share a key.
pub open spec fn unique_keys(s: Seq<AssetAccount>) -> bool {
    forall|i: int, j: int|
        0 <= i < s.len() && 0 <= j < s.len() && i != j ==> !(s[i].asset == s[j].asset
            && s[i].account == s[j].account)
}

/// The free balance `(asset, account)` holds in `s`; zero when absent.
pub open spec fn free_in(s: Seq<AssetAccount>, asset: AssetId, account: AccountId) -> Balance {
    if has_key(s, asset, account) {
        s[idx_of(s, asset, account)].free
    } else {
        0
    }
}

/// The reserved balance `(asset, account)` holds in `s`; zero when absent.
pub open spec fn reserved_in(s: Seq<AssetAccount>, asset: AssetId, account: AccountId) -> Balance {
    if has_key(s, asset, account) {
        s[idx_of(s, asset, account)].reserved
    } else {
        0
    }
}

/// The total balance reserved in `asset` over all entries of `s`.
pub open spec fn total_reserved_in(s: Seq<AssetAccount>, asset: AssetId) -> int
    decreases s.len(),
{
    if s.len() == 0 {
        0
    } else {
        total_reserved_in(s.drop_last(), asset) + if s.last().asset == asset {
            s.last().reserved as int
        } else {
            0int
        }
    }
}

/// Replacing one entry moves the asset's total reserve by exactly that
/// entry's change of contribution.
pub(crate) proof fn lemma_total_update(s: Seq<AssetAccount>, j: int, e: AssetAccount, asset: AssetId)
    requires
        0 <= j < s.len(),
    ensures
        total_reserved_in(s.update(j, e), asset) == total_reserved_in(s, asset) - (
        if s[j].asset == asset {
            s[j].reserved as int
        } else {
            0int
        }) + (
        if e.asset == asset {
            e.reserved as int
        } else {
            0int
        }),
    decreases s.len(),
{
    let post = s.update(j, e);
    if j == s.len() - 1 {
        assert(post.drop_last() =~= s.drop_last());
        assert(post.last() == e);
    } else {
        assert(post.drop_last() =~= s.drop_last().update(j, e));
        assert(post.last() == s.last());
        lemma_total_update(s.drop_last(), j, e, asset);
    }
}

/// A ledger whose entries reserve nothing of an asset has a zero total for
/// it.
pub(crate) proof fn lemma_total_zero(s: Seq<AssetAccount>, asset: AssetId)
    requires
        forall|i: int| 0 <= i < s.len() && (#[trigger] s[i]).asset == asset ==> s[i].reserved == 0,
    ensures
        total_reserved_in(s, asset) == 0,
    decreases s.len(),
{
    if s.len() > 0 {
        lemma_total_zero(s.drop_last(), asset);
    }
}

/// The ledger of all asset accounts.
#[derive(Clone, PartialEq, Eq, Debug)]
pub struct Assets {
    pub accounts: Vec<AssetAccount>,
}

/// Balances of every key other than `(asset, account)` agree between `pre`
/// and `post`.
pub open spec fn unchanged_except(pre: Assets, post: Assets, asset: AssetId, account: AccountId) -> bool {
    forall|a2: AssetId, c2: AccountId|
        !(a2 == asset && c2 == account) ==> #[trigger] post.free_of(a2, c2) == pre.free_of(a2, c2)
            && post.reserved_of(a2, c2) == pre.reserved_of(a2, c2)
}

impl Assets {
    /// Keys are unique and no account's total balance overflows.
    pub open spec fn wf(self) -> bool {
        unique_keys(self.accounts@) && forall|i: int|
            0 <= i < self.accounts@.len() ==> #[trigger] self.accounts@[i].free
                + self.accounts@[i].reserved <= Balance::MAX
    }

    /// The free balance of `account` in `asset`.
    pub open spec fn free_of(self, asset: AssetId, account: AccountId) -> Balance {
        free_in(self.accounts@, asset, account)
    }

    /// The reserved balance of `account` in `asset`.
    pub open spec fn reserved_of(self, asset: AssetId, account: AccountId) -> Balance {
        reserved_in(self.accounts@, asset, account)
    }

    /// An empty ledger: every balance is zero.
    pub fn new() -> (r: Assets)
        ensures
            r.wf(),
            forall|a: AssetId, c: AccountId| #[trigger] r.free_of(a, c) == 0,
            forall|a: AssetId, c: AccountId| #[trigger] r.reserved_of(a, c) == 0,
    {
        Assets { accounts: Vec::new() }
    }

    /// The index of the entry keyed by `(asset, account)`, if present.
    fn find(&self, asset: AssetId, account: AccountId) -> (r: Option<usize>)
        ensures
            r matches Some(i) ==> key_at(self.accounts@, i as int, asset, account),
            r is None ==> !has_key(self.accounts@, asset, account),
    {
        let mut i: usize = 0;
        while i < self.accounts.len()
            invariant
                i <= self.accounts@.len(),
                forall|j: int|
                    0 <= j < i ==> !(#[trigger] self.accounts@[j].asset == asset
                        && self.accounts@[j].account == account),
            decreases self.accounts@.len() - i,
        {
            let e = self.accounts[i];
            if e.asset == asset && e.account == account {
                return Some(i);
            }
            i = i + 1;
        }
        None
    }

    /// The free balance of `account` in `asset`.
    pub fn free_balance(&self, asset: AssetId, account: AccountId) -> (r: Balance)
        requires
            self.wf(),
        ensures
            r == self.free_of(asset, account),
    {
        match self.find(asset, account) {
            Some(i) => {
                proof {
                    lemma_key_index_unique(self.accounts@, i as int, asset, account);
                }
                self.accounts[i].free
            },
            None => 0,
        }
    }

    /// The reserved balance of `account` in `asset`.
    pub fn reserved_balance(&self, asset: AssetId, account: AccountId) -> (r: Balance)
        requires
            self.wf(),
        ensures
            r == self.reserved_of(asset, account),
    {
        match self.find(asset, account) {
            Some(i) => {
                proof {
                    lemma_key_index_unique(self.accounts@, i as int, asset, account);
                }
                self.accounts[i].reserved
            },
            None => 0,
        }
    }

    /// Endows `account` with `amount` of free balance in `asset`, as a
    /// genesis configuration does.
    pub fn endow(&mut self, asset: AssetId, account: AccountId, amount: Balance)
        requires
            old(self).wf(),
            old(self).free_of(asset, account) + old(self).reserved_of(asset, account) + amount
                <= Balance::MAX,
        ensures
            final(self).wf(),
            final(self).free_of(asset, account) == old(self).free_of(asset, account) + amount,
            final(self).reserved_of(asset, account) == old(self).reserved_of(asset, account),
            unchanged_except(*old(self), *final(self), asset, account),
    {
        let ghost pre = self.accounts@;
        match self.find(asset, account) {
            Some(i) => {
                proof {
                    lemma_key_index_unique(pre, i as int, asset, account);
                }
                let e = self.accounts[i];
                let e2 = AssetAccount { free: e.free + amount, ..e };
                self.accounts.set(i, e2);
                proof {
                    lemma_entry_update(pre, self.accounts@, i as int);
                }
            },
            None => {
                let e = AssetAccount { asset, account, free: amount, reserved: 0 };
                self.accounts.push(e);
                proof {
                    lemma_entry_push(pre, e);
                }
            },
        }
    }

    /// Moves `amount` of `account`'s free balance in `asset` to reserved.
    /// Fails with `InsufficientFunds`, changing nothing, exactly when the
    /// free balance does not cover `amount`.
    pub fn reserve(&mut self, asset: AssetId, account: AccountId, amount: Balance) -> (r: Result<
        (),
        Error,
    >)
        requires
            old(self).wf(),
        ensures
            final(self).wf(),
            r is Err <==> old(self).free_of(asset, account) < amount,
            r matches Err(e) ==> e == Error::InsufficientFunds && *final(self) == *old(self),
            r is Ok ==> final(self).free_of(asset, account) == old(self).free_of(asset, account)
                - amount,
            r is Ok ==> final(self).reserved_of(asset, account) == old(self).reserved_of(
                asset,
                account,
            ) + amount,
            unchanged_except(*old(self), *final(self), asset, account),
    {
        let ghost pre = self.accounts@;
        match self.find(asset, account) {
            Some(i) => {
                proof {
                    lemma_key_index_unique(pre, i as int, asset, account);
                }
                let e = self.accounts[i];
                if e.free < amount {
                    Err(Error::InsufficientFunds)
                } else {
                    let e2 = AssetAccount {
                        free: e.free - amount,
                        reserved: e.reserved + amount,
                        ..e
                    };
                    self.accounts.set(i, e2);
                    proof {
                        lemma_entry_update(pre, self.accounts@, i as int);
                    }
                    Ok(())
                }
            },
            None => {
                if amount == 0 {
                    Ok(())
                } else {
                    Err(Error::InsufficientFunds)
                }
            },
        }
    }

    /// Moves reserved balance of `account` in `asset` back to free:
    /// `amount`, or everything reserved if that is less. Infallible.
    pub fn unreserve(&mut self, asset: AssetId, account: AccountId, amount: Balance)
        requires
            old(self).wf(),
        ensures
            final(self).wf(),
            ({
                let moved = if amount <= old(self).reserved_of(asset, account) {
                    amount
                } else {
                    old(self).reserved_of(asset, account)
                };
                final(self).free_of(asset, account) == old(self).free_of(asset, account) + moved
                    && final(self).reserved_of(asset, account) == old(self).reserved_of(
                    asset,
                    account,
                ) - moved
            }),
            unchanged_except(*old(self), *final(self), asset, account),
    {
        let ghost pre = self.accounts@;
        match self.find(asset, account) {
            Some(i) => {
                proof {
                    lemma_key_index_unique(pre, i as int, asset, account);
                }
                let e = self.accounts[i];
                let moved = if amount <= e.reserved {
                    amount
                } else {
                    e.reserved
                };
                let e2 = AssetAccount { free: e.free + moved, reserved: e.reserved - moved, ..e };
                self.accounts.set(i, e2);
                proof {
                    lemma_entry_update(pre, self.accounts@, i as int);
                }
            },
            None => {},
        }
    }
}

/// With unique keys, any entry that matches a key is the entry `idx_of`
/// points at.
pub(crate) proof fn lemma_key_index_unique(s: Seq<AssetAccount>, i: int, asset: AssetId, account: AccountId)
    requires
        unique_keys(s),
        key_at(s, i, asset, account),
    ensures
        has_key(s, asset, account),
        idx_of(s, asset, account) == i,
{
    assert(has_key(s, asset, account));
    let j = idx_of(s, asset, account);
    assert(key_at(s, j, asset, account));
}

/// Updating one entry in place, keeping its key, changes no other key's
/// balances.
pub(crate) proof fn lemma_entry_update(pre: Seq<AssetAccount>, post: Seq<AssetAccount>, i: int)
    requires
        unique_keys(pre),
        0 <= i < pre.len(),
        post.len() == pre.len(),
        forall|j: int| 0 <= j < pre.len() && j != i ==> post[j] == pre[j],
        post[i].asset == pre[i].asset,
        post[i].account == pre[i].account,
    ensures
        unique_keys(post),
        free_in(pre, pre[i].asset, pre[i].account) == pre[i].free,
        reserved_in(pre, pre[i].asset, pre[i].account) == pre[i].reserved,
        free_in(post, pre[i].asset, pre[i].account) == post[i].free,
        reserved_in(post, pre[i].asset, pre[i].account) == post[i].reserved,
        forall|a: AssetId, c: AccountId|
            !(a == pre[i].asset && c == pre[i].account) ==> #[trigger] free_in(post, a, c)
                == free_in(pre, a, c) && reserved_in(post, a, c) == reserved_in(pre, a, c),
{
    assert(unique_keys(post)) by {
        assert(forall|k: int| 0 <= k < post.len() ==> #[trigger] post[k].asset == pre[k].asset
            && post[k].account == pre[k].account);
    }
    lemma_key_index_unique(pre, i, pre[i].asset, pre[i].account);
    lemma_key_index_unique(post, i, pre[i].asset, pre[i].account);
    assert forall|a: AssetId, c: AccountId|
        !(a == pre[i].asset && c == pre[i].account) implies #[trigger] free_in(post, a, c)
        == free_in(pre, a, c) && reserved_in(post, a, c) == reserved_in(pre, a, c) by {
        if has_key(pre, a, c) {
            let j = idx_of(pre, a, c);
            assert(key_at(pre, j, a, c));
            assert(j != i);
            assert(key_at(post, j, a, c));
            lemma_key_index_unique(post, j, a, c);
        } else {
            assert(!has_key(post, a, c)) by {
                if has_key(post, a, c) {
                    let j = idx_of(post, a, c);
                    assert(key_at(post, j, a, c));
                    assert(key_at(pre, j, a, c));
                }
            }
        }
    }
}

/// Appending an entry under a fresh key changes no existing key's balances.
proof fn lemma_entry_push(pre: Seq<AssetAccount>, x: AssetAccount)
    requires
        unique_keys(pre),
        !has_key(pre, x.asset, x.account),
    ensures
        unique_keys(pre.push(x)),
        free_in(pre.push(x), x.asset, x.account) == x.free,
        reserved_in(pre.push(x), x.asset, x.account) == x.reserved,
        free_in(pre, x.asset, x.account) == 0,
        reserved_in(pre, x.asset, x.account) == 0,
        forall|a: AssetId, c: AccountId|
            !(a == x.asset && c == x.account) ==> #[trigger] free_in(pre.push(x), a, c) == free_in(
                pre,
                a,
                c,
            ) && reserved_in(pre.push(x), a, c) == reserved_in(pre, a, c),
{
    let post = pre.push(x);
    assert(unique_keys(post)) by {
        assert(forall|k: int| 0 <= k < pre.len() ==> post[k] == pre[k]);
        assert(post[pre.len() as int] == x);
        assert forall|i: int, j: int|
            0 <= i < post.len() && 0 <= j < post.len() && i != j implies !(post[i].asset
            == post[j].asset && post[i].account == post[j].account) by {
            if i < pre.len() && j < pre.len() {
            } else if i < pre.len() {
                assert(!key_at(pre, i, x.asset, x.account));
            } else {
                assert(!key_at(pre, j, x.asset, x.account));
            }
        }
    }
    assert(key_at(post, pre.len() as int, x.asset, x.account));
    lemma_key_index_unique(post, pre.len() as int, x.asset, x.account);
    assert forall|a: AssetId, c: AccountId|
        !(a == x.asset && c == x.account) implies #[trigger] free_in(post, a, c) == free_in(
        pre,
        a,
        c,
    ) && reserved_in(post, a, c) == reserved_in(pre, a, c) by {
        if has_key(pre, a, c) {
            let j = idx_of(pre, a, c);
            assert(key_at(pre, j, a, c));
            assert(key_at(post, j, a, c));
            lemma_key_index_unique(post, j, a, c);
            lemma_key_index_unique(pre, j, a, c);
        } else {
            assert(!has_key(post, a, c)) by {
                if has_key(post, a, c) {
                    let j = idx_of(post, a, c);
                    assert(key_at(post, j, a, c));
                    assert(j < pre.len());
                    assert(key_at(pre, j, a, c));
                }
            }
        }
    }
}

} // verus!
