//! Stake-weighted scoreboard: accounts vote for targets by reserving stake,
//! and each table exposes its top-K targets, ranked by descending reserved
//! balance with ties broken by ascending target.

use vstd::prelude::*;

use vstd::relations::sorted_by;
use vstd::relations::total_ordering;
use vstd::seq_lib::lemma_multiset_commutative;
use vstd::seq_lib::lemma_sorted_unique;

use crate::assets::free_in;
use crate::assets::has_key;
use crate::assets::idx_of;
use crate::assets::key_at;
use crate::assets::lemma_entry_update;
use crate::assets::lemma_key_index_unique;
use crate::assets::lemma_total_update;
use crate::assets::lemma_total_zero;
use crate::assets::reserved_in;
use crate::assets::total_reserved_in;
use crate::assets::unchanged_except;
use crate::assets::unique_keys;
use crate::assets::AssetAccount;
use crate::assets::Assets;
use crate::AccountId;
use crate::AssetId;
use crate::Balance;
use crate::Error;
use crate::RawString;
use crate::TableId;

verus! {

/// Tables created without an explicit head count rank this many targets.
pub const DEFAULT_HEAD_COUNT: u8 = 5;

/// One placed vote: `balance` of stake backing `target`.
#[derive(Clone, Copy, PartialEq, Eq, Debug)]
pub struct Record {
    pub target: AccountId,
    pub balance: Balance,
}

/// Ranking order on records: descending balance, ties broken by ascending
/// target. The highest stake comes first.
pub open spec fn rank_le(a: Record, b: Record) -> bool {
    a.balance > b.balance || (a.balance == b.balance && a.target <= b.target)
}

/// The ranking order as a function value, for the sorting lemmas.
pub open spec fn rank_leq() -> spec_fn(Record, Record) -> bool {
    |a: Record, b: Record| rank_le(a, b)
}

/// The ranking order is total.
pub proof fn lemma_rank_total()
    ensures
        total_ordering(rank_leq()),
{
}

impl Record {
    /// Executable form of the ranking order [`rank_le`].
    pub fn rank_le_exec(&self, other: &Record) -> (r: bool)
        ensures
            r == rank_le(*self, *other),
    {
        if self.balance > other.balance {
            true
        } else if self.balance == other.balance {
            self.target <= other.target
        } else {
            false
        }
    }
}

impl Default for Record {
    /// The default record backs the zero target with zero stake.
    fn default() -> (r: Record)
        ensures
            r == (Record { target: 0, balance: 0 }),
    {
        Record { target: 0, balance: 0 }
    }
}

/// Entry `i` of `s` exists and belongs to voter `v`.
pub open spec fn voter_at(s: Seq<(AccountId, Record)>, i: int, v: AccountId) -> bool {
    0 <= i < s.len() && s[i].0 == v
}

/// Voter `v` has a vote placed in `s`.
pub open spec fn has_voter(s: Seq<(AccountId, Record)>, v: AccountId) -> bool {
    exists|i: int| voter_at(s, i, v)
}

/// The index of voter `v`'s entry in `s`.
pub open spec fn vidx_of(s: Seq<(AccountId, Record)>, v: AccountId) -> int {
    choose|i: int| voter_at(s, i, v)
}

/// Each voter has at most one entry.
pub open spec fn unique_voters(s: Seq<(AccountId, Record)>) -> bool {
    forall|i: int, j: int|
        0 <= i < s.len() && 0 <= j < s.len() && i != j ==> s[i].0 != s[j].0
}

/// The vote voter `v` currently has placed in `s`, if any.
pub open spec fn opt_record_of(s: Seq<(AccountId, Record)>, v: AccountId) -> Option<Record> {
    if has_voter(s, v) {
        Some(s[vidx_of(s, v)].1)
    } else {
        None
    }
}

/// The stake voter `v` has reserved through `s`; zero when absent.
pub open spec fn reserved_balance_in(s: Seq<(AccountId, Record)>, v: AccountId) -> Balance {
    match opt_record_of(s, v) {
        Some(rec) => rec.balance,
        None => 0,
    }
}

/// The records of `s`, in entry order.
pub open spec fn records_of(s: Seq<(AccountId, Record)>) -> Seq<Record> {
    Seq::new(s.len(), |i: int| s[i].1)
}

/// A scoreboard table: the ranked ledger of votes for one asset.
#[derive(Clone, PartialEq, Eq, Debug)]
pub struct Table {
    pub name: Option<RawString>,
    pub head_count: u8,
    pub vote_asset: AssetId,
    /// The placed records, in ranking order.
    pub scores: Vec<Record>,
    /// Each voter's currently placed vote; the deduplication index.
    pub reserved: Vec<(AccountId, Record)>,
}

impl Table {
    /// `scores` is the ranked ledger of exactly the votes in `reserved`:
    /// sorted by rank, one record per voter, and no zero-stake votes.
    pub open spec fn wf(self) -> bool {
        &&& unique_voters(self.reserved@)
        &&& sorted_by(self.scores@, rank_leq())
        &&& self.scores@.to_multiset() == records_of(self.reserved@).to_multiset()
        &&& forall|i: int|
            0 <= i < self.reserved@.len() ==> (#[trigger] self.reserved@[i]).1.balance > 0
    }

    /// The first `head_count` targets of the ranked ledger.
    pub open spec fn head_of(self) -> Seq<AccountId> {
        let k = if (self.head_count as int) <= self.scores@.len() {
            self.head_count as int
        } else {
            self.scores@.len() as int
        };
        Seq::new(k as nat, |i: int| self.scores@[i].target)
    }

    /// The index of `voter`'s entry in `reserved`, if any.
    fn find_voter_idx(&self, voter: AccountId) -> (r: Option<usize>)
        ensures
            r matches Some(k) ==> voter_at(self.reserved@, k as int, voter),
            r is None ==> !has_voter(self.reserved@, voter),
    {
        let mut i: usize = 0;
        while i < self.reserved.len()
            invariant
                i <= self.reserved@.len(),
                forall|j: int| 0 <= j < i ==> (#[trigger] self.reserved@[j]).0 != voter,
            decreases self.reserved@.len() - i,
        {
            if self.reserved[i].0 == voter {
                return Some(i);
            }
            i = i + 1;
        }
        None
    }

    /// The vote `voter` currently has placed, if any.
    pub fn lookup_voter(&self, voter: AccountId) -> (r: Option<Record>)
        requires
            unique_voters(self.reserved@),
        ensures
            r == opt_record_of(self.reserved@, voter),
    {
        match self.find_voter_idx(voter) {
            Some(k) => {
                proof {
                    lemma_voter_index_unique(self.reserved@, k as int, voter);
                }
                Some(self.reserved[k].1)
            },
            None => None,
        }
    }

    /// The index of a record equal to `rec` in `scores`.
    fn find_score_idx(&self, rec: Record) -> (r: usize)
        requires
            self.scores@.contains(rec),
        ensures
            r < self.scores@.len(),
            self.scores@[r as int] == rec,
    {
        let mut i: usize = 0;
        while i < self.scores.len()
            invariant
                i <= self.scores@.len(),
                forall|j: int| 0 <= j < i ==> self.scores@[j] != rec,
            decreases self.scores@.len() - i,
        {
            let e = self.scores[i];
            if e.target == rec.target && e.balance == rec.balance {
                return i;
            }
            i = i + 1;
        }
        // Unreachable: the precondition puts `rec` somewhere in `scores`.
        proof {
            let w = choose|w: int| 0 <= w < self.scores@.len() && self.scores@[w] == rec;
            assert(false);
        }
        0
    }

    /// The position in the ranked ledger where `rec` belongs.
    fn find_insert_pos(&self, rec: Record) -> (r: usize)
        requires
            sorted_by(self.scores@, rank_leq()),
        ensures
            r <= self.scores@.len(),
            forall|j: int| 0 <= j < r ==> rank_le(#[trigger] self.scores@[j], rec),
            r < self.scores@.len() ==> !rank_le(self.scores@[r as int], rec),
    {
        let mut i: usize = 0;
        while i < self.scores.len()
            invariant
                i <= self.scores@.len(),
                forall|j: int| 0 <= j < i ==> rank_le(#[trigger] self.scores@[j], rec),
            decreases self.scores@.len() - i,
        {
            if !self.scores[i].rank_le_exec(&rec) {
                return i;
            }
            i = i + 1;
        }
        i
    }

    /// Applies a vote to the table alone: removes `voter`'s old record from
    /// both ledgers, and places `Record { target, balance }` unless the new
    /// balance is zero. The reserve delta against the asset ledger is the
    /// caller's business.
    fn do_vote(&mut self, voter: AccountId, balance: Balance, target: AccountId)
        requires
            old(self).wf(),
        ensures
            final(self).wf(),
            final(self).name == old(self).name,
            final(self).head_count == old(self).head_count,
            final(self).vote_asset == old(self).vote_asset,
            balance != 0 ==> opt_record_of(final(self).reserved@, voter) == Some(
                Record { target, balance },
            ),
            balance == 0 ==> opt_record_of(final(self).reserved@, voter) is None,
            forall|v: AccountId|
                v != voter ==> #[trigger] opt_record_of(final(self).reserved@, v) == opt_record_of(
                    old(self).reserved@,
                    v,
                ),
    {
        match self.find_voter_idx(voter) {
            Some(k) => {
                proof {
                    lemma_voter_index_unique(self.reserved@, k as int, voter);
                }
                let old_rec = self.reserved[k].1;
                let ghost res0 = self.reserved@;
                let ghost sc0 = self.scores@;
                proof {
                    assert(records_of(res0)[k as int] == old_rec);
                    records_of(res0).to_multiset_ensures();
                    assert(records_of(res0).to_multiset().contains(old_rec));
                    sc0.to_multiset_ensures();
                    assert(sc0.contains(old_rec));
                }
                let sk = self.find_score_idx(old_rec);
                self.reserved.remove(k);
                self.scores.remove(sk);
                proof {
                    lemma_voter_remove(res0, k as int);
                    assert(records_of(res0.remove(k as int)) =~= records_of(res0).remove(k as int));
                    records_of(res0).to_multiset_ensures();
                    sc0.to_multiset_ensures();
                    assert(self.scores@.to_multiset() == records_of(self.reserved@).to_multiset());
                    assert(sorted_by(self.scores@, rank_leq())) by {
                        lemma_remove_sorted(sc0, sk as int);
                    }
                }
            },
            None => {},
        }
        if balance != 0 {
            let rec = Record { target, balance };
            let ghost res1 = self.reserved@;
            let ghost sc1 = self.scores@;
            let pos = self.find_insert_pos(rec);
            self.reserved.push((voter, rec));
            self.scores.insert(pos, rec);
            proof {
                assert(!has_voter(res1, voter));
                lemma_voter_push(res1, (voter, rec));
                assert(records_of(res1.push((voter, rec))) =~= records_of(res1).push(rec));
                records_of(res1).to_multiset_ensures();
                lemma_insert_multiset(sc1, pos as int, rec);
                assert(self.scores@.to_multiset() == records_of(self.reserved@).to_multiset());
                lemma_insert_sorted(sc1, pos as int, rec);
            }
        }
    }
}

impl Default for Table {
    /// An empty table over asset zero with the default head count.
    fn default() -> (r: Table)
        ensures
            r.name is None,
            r.head_count == DEFAULT_HEAD_COUNT,
            r.vote_asset == 0,
            r.scores@ == Seq::<Record>::empty(),
            r.reserved@ == Seq::<(AccountId, Record)>::empty(),
            r.wf(),
    {
        let r = Table {
            name: None,
            head_count: DEFAULT_HEAD_COUNT,
            vote_asset: 0,
            scores: Vec::new(),
            reserved: Vec::new(),
        };
        proof {
            lemma_empty_table_wf(r);
        }
        r
    }
}

/// The per-voter reserve coherence between a table and the asset ledger:
/// every account's on-chain reserved balance in the table's vote asset is
/// exactly the stake of its placed vote, zero when it has none.
pub open spec fn coherent(t: Table, l: Assets) -> bool {
    forall|v: AccountId|
        #[trigger] reserved_balance_in(t.reserved@, v) == l.reserved_of(t.vote_asset, v)
}

/// The scoreboard module: all tables, keyed densely by [`TableId`].
pub struct Module {
    pub tables: Vec<Table>,
    pub next_table_id: TableId,
}

impl Module {
    /// Identifiers are dense: the counter equals the number of stored
    /// tables, and every stored table is well formed.
    pub open spec fn wf(self) -> bool {
        &&& self.next_table_id == self.tables@.len()
        &&& forall|i: int| 0 <= i < self.tables@.len() ==> (#[trigger] self.tables@[i]).wf()
    }

    /// A module with no tables.
    pub fn new() -> (r: Module)
        ensures
            r.wf(),
            r.tables@ == Seq::<Table>::empty(),
            r.next_table_id == 0,
    {
        Module { tables: Vec::new(), next_table_id: 0 }
    }

    /// The identifier the next created table will get.
    pub fn next_tablescore_id(&self) -> (r: TableId)
        ensures
            r == self.next_table_id,
    {
        self.next_table_id
    }

    /// The table stored under `id`, if any.
    pub fn scores(&self, id: TableId) -> (r: Option<&Table>)
        ensures
            id < self.tables@.len() ==> (r matches Some(t) && *t == self.tables@[id as int]),
            id >= self.tables@.len() ==> r is None,
    {
        if id < self.tables.len() as u64 {
            Some(&self.tables[id as usize])
        } else {
            None
        }
    }

    /// Draws the next table identifier; fails with `IdOverflow` when the
    /// sequence is exhausted.
    fn pop_new_table_id(&mut self) -> (r: Result<TableId, Error>)
        ensures
            final(self).tables == old(self).tables,
            old(self).next_table_id == TableId::MAX ==> r == Err::<TableId, Error>(
                Error::IdOverflow,
            ) && *final(self) == *old(self),
            old(self).next_table_id < TableId::MAX ==> r == Ok::<TableId, Error>(
                old(self).next_table_id,
            ) && final(self).next_table_id == old(self).next_table_id + 1,
    {
        if self.next_table_id == TableId::MAX {
            Err(Error::IdOverflow)
        } else {
            let id = self.next_table_id;
            self.next_table_id = id + 1;
            Ok(id)
        }
    }

    /// Creates a fresh empty table and stores it under the next identifier.
    pub fn create(&mut self, vote_asset: AssetId, head_count: u8, name: Option<RawString>) -> (r:
        Result<TableId, Error>)
        requires
            old(self).wf(),
        ensures
            final(self).wf(),
            r is Err <==> old(self).tables@.len() == TableId::MAX,
            r matches Err(e) ==> e == Error::IdOverflow && *final(self) == *old(self),
            r matches Ok(id) ==> id == old(self).tables@.len()
                && final(self).next_table_id == old(self).next_table_id + 1
                && final(self).tables@.len() == old(self).tables@.len() + 1
                && final(self).tables@ == old(self).tables@.push(
                final(self).tables@[id as int],
            ) && ({
                let t = final(self).tables@[id as int];
                &&& t.name == name
                &&& t.head_count == head_count
                &&& t.vote_asset == vote_asset
                &&& t.scores@ == Seq::<Record>::empty()
                &&& t.reserved@ == Seq::<(AccountId, Record)>::empty()
            }),
    {
        let id = match self.pop_new_table_id() {
            Ok(id) => id,
            Err(e) => {
                return Err(e);
            },
        };
        let t = Table { name, head_count, vote_asset, scores: Vec::new(), reserved: Vec::new() };
        proof {
            lemma_empty_table_wf(t);
        }
        self.tables.push(t);
        Ok(id)
    }

    /// The signed transaction around [`Module::create`]: the host
    /// authenticates `_who` before the call reaches the library.
    pub fn create_table(
        &mut self,
        _who: AccountId,
        vote_asset: AssetId,
        head_count: u8,
        name: Option<RawString>,
    ) -> (r: Result<(), Error>)
        requires
            old(self).wf(),
        ensures
            final(self).wf(),
            r is Err <==> old(self).tables@.len() == TableId::MAX,
            r matches Err(e) ==> e == Error::IdOverflow && *final(self) == *old(self),
            r is Ok ==> final(self).tables@.len() == old(self).tables@.len() + 1
                && final(self).tables@ == old(self).tables@.push(
                final(self).tables@[old(self).tables@.len() as int],
            ) && ({
                let t = final(self).tables@[old(self).tables@.len() as int];
                &&& t.name == name
                &&& t.head_count == head_count
                &&& t.vote_asset == vote_asset
                &&& t.scores@ == Seq::<Record>::empty()
                &&& t.reserved@ == Seq::<(AccountId, Record)>::empty()
            }),
    {
        match self.create(vote_asset, head_count, name) {
            Ok(_) => Ok(()),
            Err(e) => Err(e),
        }
    }

    /// Places (or replaces) `voter`'s vote of `balance` for `target` on
    /// table `table_id`, adjusting the voter's reserve in the table's vote
    /// asset by the exact delta. On any failure, nothing changes.
    ///
    /// Reserve coherence is preserved: if the voter's and every other
    /// account's reserved balance matched the table before the call, it
    /// still does after it.
    pub fn vote(
        &mut self,
        ledger: &mut Assets,
        voter: AccountId,
        table_id: TableId,
        balance: Balance,
        target: AccountId,
    ) -> (r: Result<(), Error>)
        requires
            old(self).wf(),
            old(ledger).wf(),
        ensures
            final(self).wf(),
            final(ledger).wf(),
            table_id >= old(self).tables@.len() ==> r == Err::<(), Error>(Error::UnknownTable)
                && *final(self) == *old(self) && *final(ledger) == *old(ledger),
            table_id < old(self).tables@.len() ==> ({
                let t_old = old(self).tables@[table_id as int];
                let old_bal = reserved_balance_in(t_old.reserved@, voter);
                &&& (r is Err <==> old(ledger).free_of(t_old.vote_asset, voter) + old_bal
                    < balance)
                &&& (r matches Err(e) ==> e == Error::InsufficientFunds
                    && *final(self) == *old(self) && *final(ledger) == *old(ledger))
                &&& (r is Ok ==> {
                    let t_new = final(self).tables@[table_id as int];
                    &&& final(self).tables@.len() == old(self).tables@.len()
                    &&& final(self).next_table_id == old(self).next_table_id
                    &&& (forall|j: int|
                        0 <= j < old(self).tables@.len() && j != table_id
                            ==> #[trigger] final(self).tables@[j] == old(self).tables@[j])
                    &&& t_new.name == t_old.name
                    &&& t_new.head_count == t_old.head_count
                    &&& t_new.vote_asset == t_old.vote_asset
                    &&& (balance != 0 ==> opt_record_of(t_new.reserved@, voter) == Some(
                        Record { target, balance },
                    ))
                    &&& (balance == 0 ==> opt_record_of(t_new.reserved@, voter) is None)
                    &&& (forall|v: AccountId|
                        v != voter ==> #[trigger] opt_record_of(t_new.reserved@, v)
                            == opt_record_of(t_old.reserved@, v))
                    &&& unchanged_except(*old(ledger), *final(ledger), t_old.vote_asset, voter)
                    &&& ({
                        let free0 = old(ledger).free_of(t_old.vote_asset, voter);
                        let res0 = old(ledger).reserved_of(t_old.vote_asset, voter);
                        let free1 = final(ledger).free_of(t_old.vote_asset, voter);
                        let res1 = final(ledger).reserved_of(t_old.vote_asset, voter);
                        &&& (balance >= old_bal ==> free1 == free0 - (balance - old_bal)
                            && res1 == res0 + (balance - old_bal))
                        &&& (balance < old_bal ==> ({
                            let moved: int = if old_bal - balance <= res0 {
                                old_bal - balance
                            } else {
                                res0 as int
                            };
                            free1 == free0 + moved && res1 == res0 - moved
                        }))
                    })
                })
                &&& (coherent(t_old, *old(ledger)) ==> coherent(
                    final(self).tables@[table_id as int],
                    *final(ledger),
                ))
            }),
    {
        if table_id >= self.tables.len() as u64 {
            return Err(Error::UnknownTable);
        }
        let idx = table_id as usize;
        let ghost t_old = self.tables@[table_id as int];
        let asset_id = self.tables[idx].vote_asset;
        let old_rec = self.tables[idx].lookup_voter(voter);
        let new_rec = Record { target, balance };
        match rereserve(ledger, voter, asset_id, old_rec, new_rec) {
            Ok(()) => {},
            Err(e) => {
                return Err(e);
            },
        }
        let t = &mut self.tables[idx];
        t.do_vote(voter, balance, target);
        proof {
            let t_new = self.tables@[table_id as int];
            let l_old = *old(ledger);
            let asset = t_old.vote_asset;
            let old_bal = reserved_balance_in(t_old.reserved@, voter);
            if coherent(t_old, l_old) {
                assert forall|v: AccountId|
                    #[trigger] reserved_balance_in(t_new.reserved@, v) == ledger.reserved_of(
                        t_new.vote_asset,
                        v,
                    ) by {
                    assert(reserved_balance_in(t_old.reserved@, v) == l_old.reserved_of(asset, v));
                    if v == voter {
                        assert(l_old.reserved_of(asset, voter) == old_bal);
                        assert(ledger.reserved_of(asset, voter) == balance);
                        if balance != 0 {
                            assert(opt_record_of(t_new.reserved@, voter) == Some(
                                Record { target, balance },
                            ));
                        }
                    } else {
                        assert(opt_record_of(t_new.reserved@, v) == opt_record_of(
                            t_old.reserved@,
                            v,
                        ));
                        assert(ledger.free_of(asset, v) == l_old.free_of(asset, v));
                    }
                }
                assert(coherent(t_new, *ledger));
            }
        }
        Ok(())
    }

    /// Clears `voter`'s vote on `table_id`, releasing all reserved stake.
    pub fn unvote(&mut self, ledger: &mut Assets, voter: AccountId, table_id: TableId) -> (r:
        Result<(), Error>)
        requires
            old(self).wf(),
            old(ledger).wf(),
        ensures
            final(self).wf(),
            final(ledger).wf(),
            table_id >= old(self).tables@.len() ==> r == Err::<(), Error>(Error::UnknownTable)
                && *final(self) == *old(self) && *final(ledger) == *old(ledger),
            table_id < old(self).tables@.len() ==> ({
                let t_old = old(self).tables@[table_id as int];
                &&& r is Ok
                &&& opt_record_of(final(self).tables@[table_id as int].reserved@, voter) is None
                &&& (forall|v: AccountId|
                    v != voter ==> #[trigger] opt_record_of(
                        final(self).tables@[table_id as int].reserved@,
                        v,
                    ) == opt_record_of(t_old.reserved@, v))
                &&& (coherent(t_old, *old(ledger)) ==> coherent(
                    final(self).tables@[table_id as int],
                    *final(ledger),
                ))
            }),
    {
        let r = self.vote(ledger, voter, table_id, 0, 0);
        r
    }

    /// The current head of table `table_id`: its top `head_count` targets in
    /// ranking order.
    pub fn get_head(&self, table_id: &TableId) -> (r: Result<Vec<AccountId>, Error>)
        requires
            self.wf(),
        ensures
            r is Err <==> *table_id >= self.tables@.len(),
            r matches Err(e) ==> e == Error::UnknownTable,
            r matches Ok(h) ==> h@ == self.tables@[*table_id as int].head_of(),
    {
        if *table_id >= self.tables.len() as u64 {
            return Err(Error::UnknownTable);
        }
        let t = &self.tables[*table_id as usize];
        let k = if (t.head_count as usize) <= t.scores.len() {
            t.head_count as usize
        } else {
            t.scores.len()
        };
        let mut h: Vec<AccountId> = Vec::new();
        let mut i: usize = 0;
        while i < k
            invariant
                i <= k,
                k <= t.scores@.len(),
                h@.len() == i,
                forall|j: int| 0 <= j < i ==> h@[j] == t.scores@[j].target,
            decreases k - i,
        {
            h.push(t.scores[i].target);
            i = i + 1;
        }
        proof {
            assert(h@ =~= self.tables@[*table_id as int].head_of());
        }
        Ok(h)
    }
}

/// Ranking determinism: the head of a table depends only on the multiset of
/// placed records and the head count; any two well-formed tables that agree
/// on those agree on their head.
pub proof fn lemma_head_determinism(t1: Table, t2: Table)
    requires
        t1.wf(),
        t2.wf(),
        t1.head_count == t2.head_count,
        t1.scores@.to_multiset() == t2.scores@.to_multiset(),
    ensures
        t1.head_of() == t2.head_of(),
{
    lemma_rank_total();
    t1.scores@.to_multiset_ensures();
    t2.scores@.to_multiset_ensures();
    lemma_sorted_unique(t1.scores@, t2.scores@, rank_leq());
    assert(t1.scores@ == t2.scores@);
    assert(t1.head_of() =~= t2.head_of());
}

/// The sum of all balances placed in `s`.
pub open spec fn table_total(s: Seq<(AccountId, Record)>) -> int
    decreases s.len(),
{
    if s.len() == 0 {
        0
    } else {
        table_total(s.drop_last()) + s.last().1.balance
    }
}

/// Reserve coherence, summed: when every account's reserved balance in the
/// ledger matches its placed vote, the ledger's total reserve in the
/// table's vote asset equals the sum of all placed balances.
pub proof fn lemma_reserve_sum(t: Table, l: Assets)
    requires
        t.wf(),
        l.wf(),
        coherent(t, l),
    ensures
        table_total(t.reserved@) == total_reserved_in(l.accounts@, t.vote_asset),
{
    lemma_sum_coherent_seqs(t.reserved@, l.accounts@, t.vote_asset);
}

/// The inductive heart of [`lemma_reserve_sum`], over the raw sequences:
/// peel one placed vote and zero out its ledger entry; both totals drop by
/// the same balance.
proof fn lemma_sum_coherent_seqs(
    rs: Seq<(AccountId, Record)>,
    ls: Seq<AssetAccount>,
    asset: AssetId,
)
    requires
        unique_voters(rs),
        unique_keys(ls),
        forall|i: int| 0 <= i < rs.len() ==> (#[trigger] rs[i]).1.balance > 0,
        forall|v: AccountId| #[trigger] reserved_balance_in(rs, v) == reserved_in(ls, asset, v),
    ensures
        table_total(rs) == total_reserved_in(ls, asset),
    decreases rs.len(),
{
    if rs.len() == 0 {
        assert forall|i: int|
            0 <= i < ls.len() && (#[trigger] ls[i]).asset == asset implies ls[i].reserved
            == 0 by {
            lemma_key_index_unique(ls, i, asset, ls[i].account);
            assert(reserved_balance_in(rs, ls[i].account) == 0);
        }
        lemma_total_zero(ls, asset);
    } else {
        let n = rs.len() - 1;
        let p = rs.last();
        let b = p.1.balance;
        lemma_voter_index_unique(rs, n as int, p.0);
        assert(reserved_balance_in(rs, p.0) == b);
        assert(has_key(ls, asset, p.0));
        let j = idx_of(ls, asset, p.0);
        assert(key_at(ls, j, asset, p.0));
        assert(ls[j].reserved == b);
        let e2 = AssetAccount { reserved: 0, ..ls[j] };
        let ls2 = ls.update(j, e2);
        let rs2 = rs.drop_last();
        assert(rs2 =~= rs.remove(n as int));
        lemma_voter_remove(rs, n as int);
        lemma_entry_update(ls, ls2, j);
        assert forall|v: AccountId| #[trigger]
            reserved_balance_in(rs2, v) == reserved_in(ls2, asset, v) by {
            if v == p.0 {
                assert(!has_voter(rs2, p.0));
                assert(reserved_in(ls2, asset, p.0) == e2.reserved);
            } else {
                assert(opt_record_of(rs2, v) == opt_record_of(rs, v));
                assert(reserved_balance_in(rs, v) == reserved_in(ls, asset, v));
                assert(free_in(ls2, asset, v) == free_in(ls, asset, v));
            }
        }
        assert forall|i: int| 0 <= i < rs2.len() implies (#[trigger] rs2[i]).1.balance > 0 by {
            assert(rs2[i] == rs[i]);
        }
        lemma_sum_coherent_seqs(rs2, ls2, asset);
        lemma_total_update(ls, j, e2, asset);
    }
}

/// Issues the exact reserve delta between a voter's old and new vote
/// against the asset ledger. Fails, changing nothing, exactly when the
/// increase is not covered by the voter's free balance.
fn rereserve(
    ledger: &mut Assets,
    voter: AccountId,
    asset_id: AssetId,
    old_record: Option<Record>,
    new_record: Record,
) -> (r: Result<(), Error>)
    requires
        old(ledger).wf(),
    ensures
        final(ledger).wf(),
        ({
            let old_bal = match old_record {
                Some(rec) => rec.balance,
                None => 0,
            };
            let free0 = old(ledger).free_of(asset_id, voter);
            let res0 = old(ledger).reserved_of(asset_id, voter);
            let free1 = final(ledger).free_of(asset_id, voter);
            let res1 = final(ledger).reserved_of(asset_id, voter);
            &&& (r is Err <==> free0 + old_bal < new_record.balance)
            &&& (r matches Err(e) ==> e == Error::InsufficientFunds
                && *final(ledger) == *old(ledger))
            &&& unchanged_except(*old(ledger), *final(ledger), asset_id, voter)
            &&& (r is Ok && new_record.balance >= old_bal
                ==> free1 == free0 - (new_record.balance - old_bal)
                    && res1 == res0 + (new_record.balance - old_bal))
            &&& (r is Ok && new_record.balance < old_bal ==> ({
                let moved: int = if old_bal - new_record.balance <= res0 {
                    old_bal - new_record.balance
                } else {
                    res0 as int
                };
                free1 == free0 + moved && res1 == res0 - moved
            }))
        }),
{
    match old_record {
        Some(rec) => {
            if rec.balance > new_record.balance {
                ledger.unreserve(asset_id, voter, rec.balance - new_record.balance);
                Ok(())
            } else if rec.balance < new_record.balance {
                ledger.reserve(asset_id, voter, new_record.balance - rec.balance)
            } else {
                Ok(())
            }
        },
        None => ledger.reserve(asset_id, voter, new_record.balance),
    }
}

/// With unique voters, any entry belonging to a voter is the entry
/// `vidx_of` points at.
proof fn lemma_voter_index_unique(s: Seq<(AccountId, Record)>, i: int, v: AccountId)
    requires
        unique_voters(s),
        voter_at(s, i, v),
    ensures
        has_voter(s, v),
        vidx_of(s, v) == i,
{
    assert(has_voter(s, v));
    let j = vidx_of(s, v);
    assert(voter_at(s, j, v));
}

/// Removing one voter's entry leaves every other voter's vote in place.
proof fn lemma_voter_remove(pre: Seq<(AccountId, Record)>, k: int)
    requires
        unique_voters(pre),
        0 <= k < pre.len(),
    ensures
        unique_voters(pre.remove(k)),
        !has_voter(pre.remove(k), pre[k].0),
        forall|v: AccountId|
            v != pre[k].0 ==> #[trigger] opt_record_of(pre.remove(k), v) == opt_record_of(pre, v),
{
    let post = pre.remove(k);
    assert(!has_voter(post, pre[k].0)) by {
        if has_voter(post, pre[k].0) {
            let j = vidx_of(post, pre[k].0);
            assert(voter_at(post, j, pre[k].0));
            if j < k {
                assert(pre[j].0 == pre[k].0);
            } else {
                assert(pre[j + 1].0 == pre[k].0);
            }
        }
    }
    assert forall|v: AccountId|
        v != pre[k].0 implies #[trigger] opt_record_of(post, v) == opt_record_of(pre, v) by {
        if has_voter(pre, v) {
            let j = vidx_of(pre, v);
            assert(voter_at(pre, j, v));
            assert(j != k);
            let jj: int = if j < k {
                j
            } else {
                j - 1
            };
            assert(voter_at(post, jj, v));
            lemma_voter_index_unique(post, jj, v);
            lemma_voter_index_unique(pre, j, v);
        } else {
            assert(!has_voter(post, v)) by {
                if has_voter(post, v) {
                    let j = vidx_of(post, v);
                    assert(voter_at(post, j, v));
                    if j < k {
                        assert(voter_at(pre, j, v));
                    } else {
                        assert(voter_at(pre, j + 1, v));
                    }
                }
            }
        }
    }
}

/// Appending an entry for a fresh voter leaves every other voter's vote in
/// place.
proof fn lemma_voter_push(pre: Seq<(AccountId, Record)>, p: (AccountId, Record))
    requires
        unique_voters(pre),
        !has_voter(pre, p.0),
    ensures
        unique_voters(pre.push(p)),
        opt_record_of(pre.push(p), p.0) == Some(p.1),
        forall|v: AccountId|
            v != p.0 ==> #[trigger] opt_record_of(pre.push(p), v) == opt_record_of(pre, v),
{
    let post = pre.push(p);
    assert(unique_voters(post)) by {
        assert forall|i: int, j: int|
            0 <= i < post.len() && 0 <= j < post.len() && i != j implies post[i].0
            != post[j].0 by {
            if i < pre.len() && j < pre.len() {
            } else if i < pre.len() {
                assert(!voter_at(pre, i, p.0));
            } else {
                assert(!voter_at(pre, j, p.0));
            }
        }
    }
    assert(voter_at(post, pre.len() as int, p.0));
    lemma_voter_index_unique(post, pre.len() as int, p.0);
    assert forall|v: AccountId|
        v != p.0 implies #[trigger] opt_record_of(post, v) == opt_record_of(pre, v) by {
        if has_voter(pre, v) {
            let j = vidx_of(pre, v);
            assert(voter_at(pre, j, v));
            assert(voter_at(post, j, v));
            lemma_voter_index_unique(post, j, v);
            lemma_voter_index_unique(pre, j, v);
        } else {
            assert(!has_voter(post, v)) by {
                if has_voter(post, v) {
                    let j = vidx_of(post, v);
                    assert(voter_at(post, j, v));
                    assert(j < pre.len());
                    assert(voter_at(pre, j, v));
                }
            }
        }
    }
}

/// Inserting into a sequence puts one more copy of the element into its
/// multiset.
proof fn lemma_insert_multiset(s: Seq<Record>, p: int, x: Record)
    requires
        0 <= p <= s.len(),
    ensures
        s.insert(p, x).to_multiset() == s.to_multiset().insert(x),
{
    broadcast use vstd::multiset::group_multiset_axioms;

    let left = s.take(p);
    let right = s.skip(p);
    assert(s.insert(p, x) =~= left.push(x) + right);
    assert(s =~= left + right);
    lemma_multiset_commutative(left.push(x), right);
    lemma_multiset_commutative(left, right);
    left.to_multiset_ensures();
    assert(left.push(x).to_multiset() == left.to_multiset().insert(x));
    assert(left.to_multiset().insert(x).add(right.to_multiset()) =~= left.to_multiset().add(
        right.to_multiset(),
    ).insert(x));
}

/// Removing one element of a ranked sequence keeps it ranked.
proof fn lemma_remove_sorted(s: Seq<Record>, k: int)
    requires
        sorted_by(s, rank_leq()),
        0 <= k < s.len(),
    ensures
        sorted_by(s.remove(k), rank_leq()),
{
    let post = s.remove(k);
    let leq = rank_leq();
    assert forall|i: int, j: int| 0 <= i < j < post.len() implies #[trigger] leq(
        post[i],
        post[j],
    ) by {
        let i0: int = if i < k {
            i
        } else {
            i + 1
        };
        let j0: int = if j < k {
            j
        } else {
            j + 1
        };
        assert(post[i] == s[i0] && post[j] == s[j0]);
        assert(leq(s[i0], s[j0]));
    }
}

/// Inserting an element at its ranked position keeps the sequence ranked.
proof fn lemma_insert_sorted(s: Seq<Record>, p: int, x: Record)
    requires
        sorted_by(s, rank_leq()),
        0 <= p <= s.len(),
        forall|j: int| 0 <= j < p ==> rank_le(#[trigger] s[j], x),
        p < s.len() ==> !rank_le(s[p], x),
    ensures
        sorted_by(s.insert(p, x), rank_leq()),
{
    let post = s.insert(p, x);
    let leq = rank_leq();
    lemma_rank_total();
    assert forall|i: int, j: int| 0 <= i < j < post.len() implies #[trigger] leq(
        post[i],
        post[j],
    ) by {
        if i == p {
            let j0 = j - 1;
            assert(post[j] == s[j0]);
            assert(!rank_le(s[p], x));
            assert(rank_le(x, s[p]));
            if j0 > p {
                assert(leq(s[p], s[j0]));
            }
        } else if j == p {
            let i0 = i;
            assert(post[i] == s[i0]);
            assert(rank_le(s[i0], x));
        } else {
            let i0: int = if i < p {
                i
            } else {
                i - 1
            };
            let j0: int = if j < p {
                j
            } else {
                j - 1
            };
            assert(post[i] == s[i0] && post[j] == s[j0]);
            assert(leq(s[i0], s[j0]));
        }
    }
}

/// A table with no votes is well formed.
proof fn lemma_empty_table_wf(t: Table)
    requires
        t.scores@ == Seq::<Record>::empty(),
        t.reserved@ == Seq::<(AccountId, Record)>::empty(),
    ensures
        t.wf(),
{
    assert(records_of(t.reserved@) =~= Seq::<Record>::empty());
    assert(t.scores@.to_multiset() == records_of(t.reserved@).to_multiset());
}

} // verus!
