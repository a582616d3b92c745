//! Per-oracle state: the source committee, its per-asset reports, and the
//! published values.

use vstd::prelude::*;

use crate::external_value::ExternalValue;
use crate::median::get_median;
use crate::median::median_of;
use crate::median::Median;
use crate::period_handler::PeriodHandler;
use crate::AccountId;
use crate::Moment;
use crate::RawString;
use crate::TableId;
use crate::ValueType;

verus! {

/// One entry per named asset.
#[derive(Clone, PartialEq, Eq, Debug)]
pub struct AssetsVec<T>(pub Vec<T>);

impl<T> Default for AssetsVec<T> {
    /// The default is the empty vector.
    fn default() -> (r: AssetsVec<T>)
        ensures
            r.0@ == Seq::<T>::empty(),
    {
        AssetsVec(Vec::new())
    }
}

/// Every failure an oracle operation can surface.
#[derive(Clone, Copy, PartialEq, Eq, Debug)]
pub enum OracleError {
    /// The median of the committed reports does not exist; only reachable
    /// when the threshold admits fewer than two reports.
    CalculationError,
    /// Fewer committed reports than the threshold: `(threshold, got)`.
    TooFewCommitedValue(usize, usize),
    /// The asset index is out of range.
    WrongAssetId(usize),
    /// The committee is smaller than the threshold: `(threshold, got)`.
    TooFewAccounts(usize, usize),
    /// The reporting account is not a member of the committee.
    AccountAccess,
}

impl OracleError {
    /// A stable human-readable description of the failure.
    pub fn to_str(&self) -> &'static str {
        match self {
            OracleError::WrongAssetId(_) => "Wrong asset id.",
            OracleError::TooFewAccounts(_, _) => "There are fewer accounts than the minimum.",
            OracleError::CalculationError => "Unknown calculation error.",
            OracleError::AccountAccess => "Your account does not have access to send.",
            OracleError::TooFewCommitedValue(_, _) => "There are fewer actual values than the minimum.",
        }
    }
}

/// Entry `i` of `s` exists and belongs to source account `a`.
pub open spec fn source_at(
    s: Seq<(AccountId, AssetsVec<ExternalValue>)>,
    i: int,
    a: AccountId,
) -> bool {
    0 <= i < s.len() && s[i].0 == a
}

/// Account `a` is a member of the committee `s`.
pub open spec fn has_source(s: Seq<(AccountId, AssetsVec<ExternalValue>)>, a: AccountId) -> bool {
    exists|i: int| source_at(s, i, a)
}

/// The index of account `a`'s entry in `s`.
pub open spec fn sidx_of(s: Seq<(AccountId, AssetsVec<ExternalValue>)>, a: AccountId) -> int {
    choose|i: int| source_at(s, i, a)
}

/// Each account has at most one entry.
pub open spec fn unique_sources(s: Seq<(AccountId, AssetsVec<ExternalValue>)>) -> bool {
    forall|i: int, j: int|
        0 <= i < s.len() && 0 <= j < s.len() && i != j ==> s[i].0 != s[j].0
}

/// The per-asset reports account `a` currently has on file.
pub open spec fn row_of(s: Seq<(AccountId, AssetsVec<ExternalValue>)>, a: AccountId) -> Seq<
    ExternalValue,
> {
    s[sidx_of(s, a)].1.0@
}

/// The reports committed for asset `idx`, in committee order: the values of
/// the entries that are present.
pub open spec fn committed_of(s: Seq<(AccountId, AssetsVec<ExternalValue>)>, idx: int) -> Seq<
    ValueType,
>
    decreases s.len(),
{
    if s.len() == 0 {
        Seq::empty()
    } else {
        let rest = committed_of(s.drop_first(), idx);
        match s[0].1.0@[idx].value {
            Some(v) => seq![v] + rest,
            None => rest,
        }
    }
}

/// The number of distinct accounts in `s`.
pub open spec fn distinct_count_of(s: Seq<AccountId>) -> int
    decreases s.len(),
{
    if s.len() == 0 {
        0
    } else {
        distinct_count_of(s.drop_last()) + if s.drop_last().contains(s.last()) {
            0int
        } else {
            1int
        }
    }
}

/// One oracle: a named committee that reports on a fixed list of assets and
/// publishes one median per asset per period.
#[derive(Clone, PartialEq, Eq, Debug)]
pub struct Oracle {
    pub name: RawString,
    pub table: TableId,
    pub sources_threshold: u8,
    pub period_handler: PeriodHandler,
    pub assets_name: AssetsVec<RawString>,
    pub sources: Vec<(AccountId, AssetsVec<ExternalValue>)>,
    pub value: AssetsVec<ExternalValue>,
}

impl Oracle {
    /// The number of named assets.
    pub open spec fn assets_count(self) -> int {
        self.assets_name.0@.len() as int
    }

    /// The committee is a map, every report row and the published vector
    /// have one entry per asset, every stored external value is well
    /// formed, and the period handler is usable.
    pub open spec fn wf(self) -> bool {
        &&& unique_sources(self.sources@)
        &&& self.value.0@.len() == self.assets_count()
        &&& forall|i: int|
            0 <= i < self.sources@.len() ==> (#[trigger] self.sources@[i]).1.0@.len()
                == self.assets_count()
        &&& forall|i: int, j: int|
            0 <= i < self.sources@.len() && 0 <= j < self.assets_count()
                ==> (#[trigger] self.sources@[i].1.0@[j]).wf()
        &&& forall|j: int| 0 <= j < self.assets_count() ==> (#[trigger] self.value.0@[j]).wf()
        &&& self.period_handler.wf()
    }

    /// A row with nothing reported, one entry per asset: the published
    /// vector cloned and cleaned.
    pub open spec fn blank_of(self) -> Seq<ExternalValue> {
        Seq::new(
            self.assets_count() as nat,
            |i: int| ExternalValue { value: None, last_changed: None },
        )
    }

    /// What a rotation keeps for account `a`: its reports if it already is
    /// a member, a blank row if it joins.
    pub open spec fn rotate_row(self, a: AccountId) -> Seq<ExternalValue> {
        if has_source(self.sources@, a) {
            row_of(self.sources@, a)
        } else {
            self.blank_of()
        }
    }

    /// Every timestamp the oracle has recorded lies at or before `now`: the
    /// clock is monotonic and `now` is its latest reading.
    pub open spec fn times_bounded_by(self, now: Moment) -> bool {
        &&& forall|i: int, j: int|
            0 <= i < self.sources@.len() && 0 <= j < self.assets_count()
                ==> ((#[trigger] self.sources@[i].1.0@[j]).last_changed matches Some(t) ==> t
                <= now)
        &&& forall|j: int|
            0 <= j < self.assets_count() ==> ((#[trigger] self.value.0@[j]).last_changed matches
            Some(t) ==> t <= now)
    }

    /// A fresh oracle: no committee yet, nothing published yet.
    pub fn new(
        name: RawString,
        table: TableId,
        period_handler: PeriodHandler,
        sources_threshold: u8,
        assets: AssetsVec<RawString>,
    ) -> (r: Oracle)
        requires
            period_handler.wf(),
        ensures
            r.wf(),
            r.name == name,
            r.table == table,
            r.sources_threshold == sources_threshold,
            r.period_handler == period_handler,
            r.assets_name == assets,
            r.sources@ == Seq::<(AccountId, AssetsVec<ExternalValue>)>::empty(),
            r.value.0@.len() == assets.0@.len(),
            forall|j: int|
                0 <= j < assets.0@.len() ==> (#[trigger] r.value.0@[j]).value is None
                    && r.value.0@[j].last_changed is None,
    {
        let count = assets.0.len();
        let mut value: Vec<ExternalValue> = Vec::new();
        let mut i: usize = 0;
        while i < count
            invariant
                i <= count,
                value@.len() == i,
                forall|j: int|
                    0 <= j < i ==> (#[trigger] value@[j]).value is None && value@[j].last_changed
                        is None,
            decreases count - i,
        {
            value.push(ExternalValue::new());
            i = i + 1;
        }
        Oracle {
            name,
            table,
            sources_threshold,
            period_handler,
            assets_name: assets,
            sources: Vec::new(),
            value: AssetsVec(value),
        }
    }

    /// Whether asset `external_asset_id` may be finalized at `now`: the
    /// index is in range and its published value is from an earlier period.
    pub fn is_calculate_time(&self, external_asset_id: usize, now: Moment) -> (r: bool)
        requires
            self.wf(),
        ensures
            r == (external_asset_id < self.assets_count()
                && self.period_handler.spec_is_calculate_time(
                self.value.0@[external_asset_id as int].last_changed,
                now,
            )),
    {
        external_asset_id < self.get_assets_count() && self.period_handler.is_calculate_time(
            self.value.0[external_asset_id].last_changed,
            now,
        )
    }

    /// The number of named assets.
    pub fn get_assets_count(&self) -> (r: usize)
        ensures
            r == self.assets_count(),
    {
        self.assets_name.0.len()
    }

    /// Registers one more named asset. Only meaningful before a committee
    /// exists: rows already on file keep one entry per asset.
    pub fn add_asset(&mut self, name: RawString)
        requires
            old(self).wf(),
            old(self).sources@.len() == 0,
            old(self).assets_count() < usize::MAX,
        ensures
            final(self).wf(),
            final(self).assets_name.0@ == old(self).assets_name.0@.push(name),
            final(self).value.0@ == old(self).value.0@.push(
                ExternalValue { value: None, last_changed: None },
            ),
            final(self).sources == old(self).sources,
            final(self).name == old(self).name,
            final(self).table == old(self).table,
            final(self).sources_threshold == old(self).sources_threshold,
            final(self).period_handler == old(self).period_handler,
    {
        self.assets_name.0.push(name);
        self.value.0.push(ExternalValue::new());
    }

    /// The committee that rotating to `accounts` yields: each listed
    /// account keeps the reports this oracle has on file for it and every
    /// newcomer starts blank (the published vector cloned, then cleaned).
    /// Duplicates count once. Reads only; the caller installs the result.
    pub fn build_sources(&self, accounts: &Vec<AccountId>) -> (ns: Vec<
        (AccountId, AssetsVec<ExternalValue>),
    >)
        requires
            self.wf(),
        ensures
            unique_sources(ns@),
            ns@.len() <= accounts@.len(),
            ns@.len() == distinct_count_of(accounts@),
            forall|a: AccountId| #[trigger] has_source(ns@, a) <==> accounts@.contains(a),
            forall|k: int|
                0 <= k < ns@.len() ==> (#[trigger] ns@[k]).1.0@ == self.rotate_row(ns@[k].0),
            forall|k: int|
                0 <= k < ns@.len() ==> (#[trigger] ns@[k]).1.0@.len() == self.assets_count(),
            forall|k: int, j: int|
                0 <= k < ns@.len() && 0 <= j < self.assets_count()
                    ==> (#[trigger] ns@[k].1.0@[j]).wf(),
    {
        let count = self.get_assets_count();
        let mut new_sources: Vec<(AccountId, AssetsVec<ExternalValue>)> = Vec::new();
        let mut i: usize = 0;
        while i < accounts.len()
            invariant
                i <= accounts@.len(),
                self.wf(),
                count == self.assets_count(),
                unique_sources(new_sources@),
                new_sources@.len() <= i,
                new_sources@.len() == distinct_count_of(accounts@.take(i as int)),
                forall|a: AccountId| #[trigger]
                    has_source(new_sources@, a) <==> accounts@.take(i as int).contains(a),
                forall|k: int|
                    0 <= k < new_sources@.len() ==> (#[trigger] new_sources@[k]).1.0@
                        == self.rotate_row(new_sources@[k].0),
                forall|k: int|
                    0 <= k < new_sources@.len() ==> (#[trigger] new_sources@[k]).1.0@.len()
                        == self.assets_count(),
                forall|k: int, j: int|
                    0 <= k < new_sources@.len() && 0 <= j < self.assets_count()
                        ==> (#[trigger] new_sources@[k].1.0@[j]).wf(),
            decreases accounts@.len() - i,
        {
            let a = accounts[i];
            let ghost pre = new_sources@;
            let found = find_src(&new_sources, a);
            proof {
                if found is Some {
                    assert(source_at(pre, found->Some_0 as int, a));
                    assert(has_source(pre, a));
                } else {
                    assert(!has_source(pre, a));
                }
            }
            let fresh = found.is_none();
            if fresh {
                let row: Vec<ExternalValue> = match find_src(&self.sources, a) {
                    Some(k) => {
                        proof {
                            lemma_source_index_unique(self.sources@, k as int, a);
                        }
                        copy_row(&self.sources[k].1.0)
                    },
                    None => blank_row(count),
                };
                new_sources.push((a, AssetsVec(row)));
                proof {
                    lemma_source_push(pre, (a, AssetsVec(row)));
                    assert(row@ == self.rotate_row(a));
                }
            }
            proof {
                assert(accounts@.take(i + 1) =~= accounts@.take(i as int).push(
                    accounts@[i as int],
                ));
                assert(accounts@.take(i + 1).drop_last() =~= accounts@.take(i as int));
                assert(fresh <==> !accounts@.take(i as int).contains(a));
                assert forall|x: AccountId| #[trigger]
                    has_source(new_sources@, x) <==> accounts@.take(i + 1).contains(x) by {
                    if has_source(new_sources@, x) {
                        if x == a {
                            assert(accounts@.take(i + 1)[i as int] == a);
                        } else {
                            assert(has_source(pre, x));
                            assert(accounts@.take(i as int).contains(x));
                            let w = choose|w: int|
                                0 <= w < i && #[trigger] accounts@.take(i as int)[w] == x;
                            assert(accounts@.take(i + 1)[w] == x);
                        }
                    }
                    if accounts@.take(i + 1).contains(x) {
                        let w = choose|w: int|
                            0 <= w < i + 1 && #[trigger] accounts@.take(i + 1)[w] == x;
                        if w < i {
                            assert(accounts@.take(i as int)[w] == x);
                            assert(has_source(pre, x));
                        }
                    }
                }
            }
            i = i + 1;
        }
        proof {
            assert(accounts@.take(accounts@.len() as int) =~= accounts@);
        }
        new_sources
    }

    /// Replaces the committee with `accounts`: each listed account keeps
    /// the reports it already has on file and every newcomer starts blank.
    /// Duplicates count once. The new committee is installed even when it
    /// is too small; the error then tells the caller not to mark the
    /// rotation complete.
    pub fn update_accounts(&mut self, accounts: Vec<AccountId>) -> (r: Result<(), OracleError>)
        requires
            old(self).wf(),
        ensures
            final(self).wf(),
            final(self).name == old(self).name,
            final(self).table == old(self).table,
            final(self).sources_threshold == old(self).sources_threshold,
            final(self).period_handler == old(self).period_handler,
            final(self).assets_name == old(self).assets_name,
            final(self).value == old(self).value,
            forall|a: AccountId| #[trigger]
                has_source(final(self).sources@, a) <==> accounts@.contains(a),
            forall|a: AccountId| #[trigger]
                has_source(final(self).sources@, a) ==> row_of(final(self).sources@, a) == old(
                    self,
                ).rotate_row(a),
            final(self).sources@.len() <= accounts@.len(),
            final(self).sources@.len() == distinct_count_of(accounts@),
            r is Err <==> final(self).sources@.len() < old(self).sources_threshold,
            r matches Err(e) ==> e == OracleError::TooFewAccounts(
                old(self).sources_threshold as usize,
                final(self).sources@.len() as usize,
            ),
    {
        let new_sources = self.build_sources(&accounts);
        self.sources = new_sources;
        if self.sources.len() < self.sources_threshold as usize {
            Err(
                OracleError::TooFewAccounts(self.sources_threshold as usize, self.sources.len()),
            )
        } else {
            Ok(())
        }
    }

    /// Whether `account` is a member of the committee.
    pub fn is_source(&self, account: AccountId) -> (r: bool)
        ensures
            r == has_source(self.sources@, account),
    {
        find_src(&self.sources, account).is_some()
    }

    /// Records `account`'s reports, one per asset, all stamped with `now`.
    /// Fails with `AccountAccess`, changing nothing, when `account` is not
    /// a committee member.
    pub fn commit_value(
        &mut self,
        account: &AccountId,
        values: AssetsVec<ValueType>,
        now: Moment,
    ) -> (r: Result<(), OracleError>)
        requires
            old(self).wf(),
            values.0@.len() == old(self).assets_count(),
            has_source(old(self).sources@, *account) ==> forall|j: int|
                0 <= j < old(self).assets_count() ==> ((#[trigger] row_of(
                    old(self).sources@,
                    *account,
                )[j]).last_changed matches Some(t) ==> t <= now),
        ensures
            final(self).wf(),
            final(self).name == old(self).name,
            final(self).table == old(self).table,
            final(self).sources_threshold == old(self).sources_threshold,
            final(self).period_handler == old(self).period_handler,
            final(self).assets_name == old(self).assets_name,
            final(self).value == old(self).value,
            !has_source(old(self).sources@, *account) ==> r == Err::<(), OracleError>(
                OracleError::AccountAccess,
            ) && *final(self) == *old(self),
            has_source(old(self).sources@, *account) ==> r is Ok && ({
                &&& forall|a: AccountId| #[trigger]
                    has_source(final(self).sources@, a) <==> has_source(old(self).sources@, a)
                &&& forall|a: AccountId|
                    a != *account && has_source(old(self).sources@, a) ==> #[trigger] row_of(
                        final(self).sources@,
                        a,
                    ) == row_of(old(self).sources@, a)
                &&& row_of(final(self).sources@, *account) == Seq::new(
                    old(self).assets_count() as nat,
                    |j: int|
                        ExternalValue { value: Some(values.0@[j]), last_changed: Some(now) },
                )
            }),
    {
        let k = match find_src(&self.sources, *account) {
            Some(k) => k,
            None => {
                return Err(OracleError::AccountAccess);
            },
        };
        proof {
            lemma_source_index_unique(self.sources@, k as int, *account);
        }
        let ghost pre = self.sources@;
        let count = self.get_assets_count();
        let mut row: Vec<ExternalValue> = Vec::new();
        let mut j: usize = 0;
        while j < count
            invariant
                j <= count,
                count == values.0@.len(),
                row@.len() == j,
                forall|t: int|
                    0 <= t < j ==> #[trigger] row@[t] == (ExternalValue {
                        value: Some(values.0@[t]),
                        last_changed: Some(now),
                    }),
            decreases count - j,
        {
            row.push(ExternalValue::with_value(values.0[j], now));
            j = j + 1;
        }
        let a_copy = *account;
        self.sources.set(k, (a_copy, AssetsVec(row)));
        proof {
            lemma_source_update(pre, self.sources@, k as int);
            assert(row_of(self.sources@, *account) =~= Seq::new(
                old(self).assets_count() as nat,
                |j: int| ExternalValue { value: Some(values.0@[j]), last_changed: Some(now) },
            ));
        }
        Ok(())
    }

    /// Finalizes asset `number` at `now`: collects the committed reports,
    /// takes their median (averaging the middle pair of an even-sized
    /// sample), publishes it, and returns it. Each failure leaves the
    /// oracle unchanged.
    pub fn calculate_median(&mut self, number: usize, now: Moment) -> (r: Result<
        ValueType,
        OracleError,
    >)
        requires
            old(self).wf(),
            number < old(self).assets_count() ==> (old(
                self,
            ).value.0@[number as int].last_changed matches Some(t) ==> t <= now),
        ensures
            final(self).wf(),
            final(self).name == old(self).name,
            final(self).table == old(self).table,
            final(self).sources_threshold == old(self).sources_threshold,
            final(self).period_handler == old(self).period_handler,
            final(self).assets_name == old(self).assets_name,
            final(self).sources == old(self).sources,
            number >= old(self).assets_count() ==> r == Err::<ValueType, OracleError>(
                OracleError::WrongAssetId(number),
            ) && *final(self) == *old(self),
            number < old(self).assets_count() && old(self).sources@.len() < old(
                self,
            ).sources_threshold ==> r == Err::<ValueType, OracleError>(
                OracleError::TooFewAccounts(
                    old(self).sources_threshold as usize,
                    old(self).sources@.len() as usize,
                ),
            ) && *final(self) == *old(self),
            number < old(self).assets_count() && old(self).sources@.len() >= old(
                self,
            ).sources_threshold ==> ({
                let c = committed_of(old(self).sources@, number as int);
                &&& c.len() < old(self).sources_threshold ==> r == Err::<
                    ValueType,
                    OracleError,
                >(
                    OracleError::TooFewCommitedValue(
                        old(self).sources_threshold as usize,
                        c.len() as usize,
                    ),
                ) && *final(self) == *old(self)
                &&& c.len() >= old(self).sources_threshold ==> ({
                    &&& median_of(c) is None ==> r == Err::<ValueType, OracleError>(
                        OracleError::CalculationError,
                    ) && *final(self) == *old(self)
                    &&& (match median_of(c) {
                        Some(Median::Value(v)) => r == Ok::<ValueType, OracleError>(v),
                        Some(Median::Pair(a, b)) => r matches Ok(m) && m == (a + b) / 2,
                        None => true,
                    })
                    &&& median_of(c) is Some ==> (r matches Ok(m) && final(self).value.0@ == old(
                        self,
                    ).value.0@.update(
                        number as int,
                        ExternalValue { value: Some(m), last_changed: Some(now) },
                    ))
                })
            }),
    {
        if number >= self.get_assets_count() {
            return Err(OracleError::WrongAssetId(number));
        }
        if self.sources.len() < self.sources_threshold as usize {
            return Err(
                OracleError::TooFewAccounts(self.sources_threshold as usize, self.sources.len()),
            );
        }
        let ghost srcs = self.sources@;
        let mut collected: Vec<ValueType> = Vec::new();
        let mut i: usize = 0;
        proof {
            assert(srcs.skip(0) =~= srcs);
        }
        while i < self.sources.len()
            invariant
                i <= self.sources@.len(),
                self == old(self),
                old(self).wf(),
                srcs == self.sources@,
                number < old(self).assets_count(),
                committed_of(srcs, number as int) == collected@ + committed_of(
                    srcs.skip(i as int),
                    number as int,
                ),
            decreases self.sources@.len() - i,
        {
            let ghost tail = srcs.skip(i as int);
            proof {
                assert(tail[0] == srcs[i as int]);
                assert(tail.drop_first() =~= srcs.skip(i + 1));
            }
            let entry = &self.sources[i];
            match entry.1.0[number].value {
                Some(v) => {
                    let ghost c0 = collected@;
                    collected.push(v);
                    proof {
                        assert(committed_of(tail, number as int) == seq![v] + committed_of(
                            srcs.skip(i + 1),
                            number as int,
                        ));
                        assert(collected@ + committed_of(srcs.skip(i + 1), number as int) =~= c0
                            + committed_of(tail, number as int));
                    }
                },
                None => {
                    proof {
                        assert(committed_of(tail, number as int) == committed_of(
                            srcs.skip(i + 1),
                            number as int,
                        ));
                    }
                },
            }
            i = i + 1;
        }
        proof {
            assert(srcs.skip(srcs.len() as int) =~= Seq::<
                (AccountId, AssetsVec<ExternalValue>),
            >::empty());
            assert(collected@ + Seq::<ValueType>::empty() =~= collected@);
        }
        let ghost c = committed_of(srcs, number as int);
        if collected.len() < self.sources_threshold as usize {
            return Err(
                OracleError::TooFewCommitedValue(
                    self.sources_threshold as usize,
                    collected.len(),
                ),
            );
        }
        let med = match get_median(collected) {
            Some(Median::Value(v)) => v,
            Some(Median::Pair(a, b)) => average(a, b),
            None => {
                return Err(OracleError::CalculationError);
            },
        };
        let ev = &mut self.value.0[number];
        ev.update(med, now);
        Ok(med)
    }
}

impl Default for Oracle {
    /// An all-empty oracle, as the storage layer materializes absent
    /// entries. It is not well formed; every stored oracle comes from
    /// [`Oracle::new`].
    fn default() -> (r: Oracle)
        ensures
            r.name@ == Seq::<u8>::empty(),
            r.table == 0,
            r.sources_threshold == 0,
            r.period_handler == (PeriodHandler {
                start: 0,
                calculate_period: 0,
                aggregate_period: 0,
                last_sources_update: 0,
            }),
            r.assets_name.0@ == Seq::<RawString>::empty(),
            r.sources@ == Seq::<(AccountId, AssetsVec<ExternalValue>)>::empty(),
            r.value.0@ == Seq::<ExternalValue>::empty(),
    {
        Oracle {
            name: Vec::new(),
            table: 0,
            sources_threshold: 0,
            period_handler: Default::default(),
            assets_name: Default::default(),
            sources: Vec::new(),
            value: Default::default(),
        }
    }
}

/// Rotation stability: a rotation whose account list names exactly the
/// current committee blanks no entry — every member keeps the reports it
/// had on file. The hypotheses are what [`Oracle::update_accounts`]
/// guarantees of the oracle it leaves behind.
pub proof fn lemma_rotation_stability(pre: Oracle, post: Oracle, accounts: Seq<AccountId>)
    requires
        forall|a: AccountId| #[trigger] has_source(post.sources@, a) <==> accounts.contains(a),
        forall|a: AccountId| #[trigger]
            has_source(post.sources@, a) ==> row_of(post.sources@, a) == pre.rotate_row(a),
        forall|a: AccountId| #[trigger] accounts.contains(a) <==> has_source(pre.sources@, a),
    ensures
        forall|a: AccountId| #[trigger]
            has_source(post.sources@, a) <==> has_source(pre.sources@, a),
        forall|a: AccountId| #[trigger]
            has_source(post.sources@, a) ==> row_of(post.sources@, a) == row_of(pre.sources@, a),
{
    assert forall|a: AccountId| #[trigger]
        has_source(post.sources@, a) implies (has_source(post.sources@, a) <==> has_source(
        pre.sources@,
        a,
    )) && row_of(post.sources@, a) == row_of(pre.sources@, a) by {
        assert(accounts.contains(a));
        assert(has_source(pre.sources@, a));
        assert(pre.rotate_row(a) == row_of(pre.sources@, a));
    }
    assert forall|a: AccountId|
        has_source(pre.sources@, a) implies #[trigger] has_source(post.sources@, a) by {
        assert(accounts.contains(a));
    }
}

/// A freshly reported value: `(a + b) / 2` without intermediate overflow.
fn average(a: ValueType, b: ValueType) -> (m: ValueType)
    ensures
        m == (a + b) / 2,
{
    let m = a / 2 + b / 2 + (a % 2 + b % 2) / 2;
    proof {
        let qa = a as int / 2;
        let ra = a as int % 2;
        let qb = b as int / 2;
        let rb = b as int % 2;
        vstd::arithmetic::div_mod::lemma_fundamental_div_mod(a as int, 2);
        vstd::arithmetic::div_mod::lemma_fundamental_div_mod(b as int, 2);
        if ra + rb == 2 {
            vstd::arithmetic::div_mod::lemma_fundamental_div_mod_converse(
                a as int + b as int,
                2,
                qa + qb + 1,
                0,
            );
        } else {
            vstd::arithmetic::div_mod::lemma_fundamental_div_mod_converse(
                a as int + b as int,
                2,
                qa + qb,
                ra + rb,
            );
        }
    }
    m
}

/// A row of `count` empty external values.
fn blank_row(count: usize) -> (r: Vec<ExternalValue>)
    ensures
        r@.len() == count,
        forall|j: int|
            0 <= j < count ==> #[trigger] r@[j] == (ExternalValue {
                value: None,
                last_changed: None,
            }),
{
    let mut r: Vec<ExternalValue> = Vec::new();
    let mut i: usize = 0;
    while i < count
        invariant
            i <= count,
            r@.len() == i,
            forall|j: int|
                0 <= j < i ==> #[trigger] r@[j] == (ExternalValue {
                    value: None,
                    last_changed: None,
                }),
        decreases count - i,
    {
        r.push(ExternalValue::new());
        i = i + 1;
    }
    r
}

/// An element-wise copy of a report row.
fn copy_row(v: &Vec<ExternalValue>) -> (r: Vec<ExternalValue>)
    ensures
        r@ == v@,
{
    let mut r: Vec<ExternalValue> = Vec::new();
    let mut i: usize = 0;
    while i < v.len()
        invariant
            i <= v@.len(),
            r@ == v@.take(i as int),
        decreases v@.len() - i,
    {
        let ghost r0 = r@;
        r.push(v[i]);
        proof {
            assert(r0.push(v@[i as int]) =~= v@.take(i + 1));
        }
        i = i + 1;
    }
    proof {
        assert(v@.take(v@.len() as int) =~= v@);
    }
    r
}

/// The index of `a`'s entry in a committee vector, if any.
pub(crate) fn find_src(v: &Vec<(AccountId, AssetsVec<ExternalValue>)>, a: AccountId) -> (r: Option<
    usize,
>)
    ensures
        r matches Some(k) ==> source_at(v@, k as int, a),
        r is None ==> !has_source(v@, a),
{
    let mut i: usize = 0;
    while i < v.len()
        invariant
            i <= v@.len(),
            forall|j: int| 0 <= j < i ==> (#[trigger] v@[j]).0 != a,
        decreases v@.len() - i,
    {
        if v[i].0 == a {
            return Some(i);
        }
        i = i + 1;
    }
    None
}

/// With unique sources, any entry belonging to an account is the entry
/// `sidx_of` points at.
proof fn lemma_source_index_unique(
    s: Seq<(AccountId, AssetsVec<ExternalValue>)>,
    i: int,
    a: AccountId,
)
    requires
        unique_sources(s),
        source_at(s, i, a),
    ensures
        has_source(s, a),
        sidx_of(s, a) == i,
{
    assert(has_source(s, a));
    let j = sidx_of(s, a);
    assert(source_at(s, j, a));
}

/// Appending an entry for a fresh account leaves every other account's row
/// in place.
proof fn lemma_source_push(
    pre: Seq<(AccountId, AssetsVec<ExternalValue>)>,
    p: (AccountId, AssetsVec<ExternalValue>),
)
    requires
        unique_sources(pre),
        !has_source(pre, p.0),
    ensures
        unique_sources(pre.push(p)),
        has_source(pre.push(p), p.0),
        row_of(pre.push(p), p.0) == p.1.0@,
        forall|a: AccountId|
            a != p.0 ==> (#[trigger] has_source(pre.push(p), a) <==> has_source(pre, a)),
        forall|a: AccountId|
            a != p.0 && has_source(pre, a) ==> #[trigger] row_of(pre.push(p), a) == row_of(pre, a),
{
    let post = pre.push(p);
    assert(unique_sources(post)) by {
        assert forall|i: int, j: int|
            0 <= i < post.len() && 0 <= j < post.len() && i != j implies post[i].0
            != post[j].0 by {
            if i < pre.len() && j < pre.len() {
            } else if i < pre.len() {
                assert(!source_at(pre, i, p.0));
            } else {
                assert(!source_at(pre, j, p.0));
            }
        }
    }
    assert(source_at(post, pre.len() as int, p.0));
    lemma_source_index_unique(post, pre.len() as int, p.0);
    assert forall|a: AccountId|
        a != p.0 implies (#[trigger] has_source(post, a) <==> has_source(pre, a)) by {
        if has_source(pre, a) {
            let j = sidx_of(pre, a);
            assert(source_at(pre, j, a));
            assert(source_at(post, j, a));
        } else {
            assert(!has_source(post, a)) by {
                if has_source(post, a) {
                    let j = sidx_of(post, a);
                    assert(source_at(post, j, a));
                    assert(j < pre.len());
                    assert(source_at(pre, j, a));
                }
            }
        }
    }
    assert forall|a: AccountId|
        a != p.0 && has_source(pre, a) implies #[trigger] row_of(post, a) == row_of(pre, a) by {
        let j = sidx_of(pre, a);
        assert(source_at(pre, j, a));
        assert(source_at(post, j, a));
        lemma_source_index_unique(post, j, a);
        lemma_source_index_unique(pre, j, a);
    }
}

/// Replacing one entry in place, keeping its account, changes no other
/// account's row.
proof fn lemma_source_update(
    pre: Seq<(AccountId, AssetsVec<ExternalValue>)>,
    post: Seq<(AccountId, AssetsVec<ExternalValue>)>,
    k: int,
)
    requires
        unique_sources(pre),
        0 <= k < pre.len(),
        post.len() == pre.len(),
        forall|j: int| 0 <= j < pre.len() && j != k ==> post[j] == pre[j],
        post[k].0 == pre[k].0,
    ensures
        unique_sources(post),
        forall|a: AccountId| #[trigger] has_source(post, a) <==> has_source(pre, a),
        row_of(post, pre[k].0) == post[k].1.0@,
        forall|a: AccountId|
            a != pre[k].0 && has_source(pre, a) ==> #[trigger] row_of(post, a) == row_of(pre, a),
{
    assert(unique_sources(post)) by {
        assert(forall|i: int| 0 <= i < post.len() ==> (#[trigger] post[i]).0 == pre[i].0);
    }
    lemma_source_index_unique(post, k, pre[k].0);
    assert forall|a: AccountId| #[trigger] has_source(post, a) <==> has_source(pre, a) by {
        if has_source(pre, a) {
            let j = sidx_of(pre, a);
            assert(source_at(pre, j, a));
            assert(source_at(post, j, a));
        }
        if has_source(post, a) {
            let j = sidx_of(post, a);
            assert(source_at(post, j, a));
            assert(source_at(pre, j, a));
        }
    }
    assert forall|a: AccountId|
        a != pre[k].0 && has_source(pre, a) implies #[trigger] row_of(post, a) == row_of(
        pre,
        a,
    ) by {
        let j = sidx_of(pre, a);
        assert(source_at(pre, j, a));
        assert(j != k);
        assert(source_at(post, j, a));
        lemma_source_index_unique(post, j, a);
        lemma_source_index_unique(pre, j, a);
    }
}

} // verus!
