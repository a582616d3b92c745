//! The oracle dispatcher: transaction entry points that thread the
//! scoreboard, the clock reading and the signer through the per-oracle
//! state. Every entry point is atomic: on any failure it leaves every
//! observable state exactly as it found it.

use vstd::prelude::*;

use crate::oracle::distinct_count_of;
use crate::oracle::find_src;
use crate::oracle::has_source;
use crate::oracle::row_of;
use crate::oracle::sidx_of;
use crate::oracle::source_at;
use crate::oracle::AssetsVec;
use crate::oracle::Oracle;
use crate::oracle::OracleError;
use crate::external_value::ExternalValue;
use crate::median::median_of;
use crate::median::Median;
use crate::period_handler::lemma_period_monotonic;
use crate::period_handler::PeriodHandler;
use crate::tablescore;
use crate::AccountId;
use crate::AssetId;
use crate::Error;
use crate::Moment;
use crate::OracleId;
use crate::RawString;
use crate::TimeInterval;
use crate::ValueType;

verus! {

/// How each failure of an [`Oracle`] operation surfaces at the dispatcher.
pub open spec fn map_oracle_error(e: OracleError) -> Error {
    match e {
        OracleError::CalculationError => Error::CalculationError,
        OracleError::TooFewCommitedValue(th, got) => Error::TooFewCommittedValues(th, got),
        OracleError::WrongAssetId(n) => Error::WrongAssetId(n),
        OracleError::TooFewAccounts(th, got) => Error::TooFewAccounts(th, got),
        OracleError::AccountAccess => Error::AccountAccess,
    }
}

/// Executable form of [`map_oracle_error`].
pub fn from_oracle_error(e: OracleError) -> (r: Error)
    ensures
        r == map_oracle_error(e),
{
    match e {
        OracleError::CalculationError => Error::CalculationError,
        OracleError::TooFewCommitedValue(th, got) => Error::TooFewCommittedValues(th, got),
        OracleError::WrongAssetId(n) => Error::WrongAssetId(n),
        OracleError::TooFewAccounts(th, got) => Error::TooFewAccounts(th, got),
        OracleError::AccountAccess => Error::AccountAccess,
    }
}

/// The oracle module: all oracles, keyed densely by [`OracleId`].
pub struct Module {
    pub oracles: Vec<Oracle>,
    pub next_oracle_id: OracleId,
}

impl Module {
    /// Identifiers are dense: the counter equals the number of stored
    /// oracles, and every stored oracle is well formed.
    pub open spec fn wf(self) -> bool {
        &&& self.next_oracle_id == self.oracles@.len()
        &&& forall|i: int| 0 <= i < self.oracles@.len() ==> (#[trigger] self.oracles@[i]).wf()
    }

    /// A module with no oracles.
    pub fn new() -> (r: Module)
        ensures
            r.wf(),
            r.oracles@ == Seq::<Oracle>::empty(),
            r.next_oracle_id == 0,
    {
        Module { oracles: Vec::new(), next_oracle_id: 0 }
    }

    /// The identifier the next created oracle will get.
    pub fn next_oracle_id(&self) -> (r: OracleId)
        ensures
            r == self.next_oracle_id,
    {
        self.next_oracle_id
    }

    /// The oracle stored under `id`, if any.
    pub fn oracles(&self, id: OracleId) -> (r: Option<&Oracle>)
        ensures
            id < self.oracles@.len() ==> (r matches Some(o) && *o == self.oracles@[id as int]),
            id >= self.oracles@.len() ==> r is None,
    {
        if id < self.oracles.len() as u64 {
            Some(&self.oracles[id as usize])
        } else {
            None
        }
    }

    /// Draws the next oracle identifier; fails with `IdOverflow` when the
    /// sequence is exhausted.
    fn pop_new_oracle_id(&mut self) -> (r: Result<OracleId, Error>)
        ensures
            final(self).oracles == old(self).oracles,
            old(self).next_oracle_id == OracleId::MAX ==> r == Err::<OracleId, Error>(
                Error::IdOverflow,
            ) && *final(self) == *old(self),
            old(self).next_oracle_id < OracleId::MAX ==> r == Ok::<OracleId, Error>(
                old(self).next_oracle_id,
            ) && final(self).next_oracle_id == old(self).next_oracle_id + 1,
    {
        if self.next_oracle_id == OracleId::MAX {
            Err(Error::IdOverflow)
        } else {
            let id = self.next_oracle_id;
            self.next_oracle_id = id + 1;
            Ok(id)
        }
    }

    /// Creates an oracle: provisions its backing table on the scoreboard,
    /// anchors its period handler at `now`, and stores the fresh oracle
    /// under the next identifier. Fails with `InvalidPeriod` on bad period
    /// parameters and with `IdOverflow` on an exhausted identifier
    /// sequence; on failure neither module changes.
    pub fn create(
        &mut self,
        scores: &mut tablescore::Module,
        name: RawString,
        asset_id: AssetId,
        source_calculate_count: u8,
        aggregate_period: TimeInterval,
        calculate_period: TimeInterval,
        assets: AssetsVec<RawString>,
        now: Moment,
    ) -> (r: Result<OracleId, Error>)
        requires
            old(self).wf(),
            old(scores).wf(),
        ensures
            final(self).wf(),
            final(scores).wf(),
            ({
                let bad_period = calculate_period <= aggregate_period || aggregate_period == 0;
                let ids_left = old(self).next_oracle_id < OracleId::MAX;
                let tables_left = old(scores).tables@.len() < crate::TableId::MAX;
                &&& (bad_period ==> r == Err::<OracleId, Error>(Error::InvalidPeriod)
                    && *final(self) == *old(self) && *final(scores) == *old(scores))
                &&& (!bad_period && !ids_left ==> r == Err::<OracleId, Error>(Error::IdOverflow)
                    && *final(self) == *old(self) && *final(scores) == *old(scores))
                &&& (!bad_period && ids_left && !tables_left ==> r == Err::<OracleId, Error>(
                    Error::IdOverflow,
                ) && *final(self) == *old(self) && *final(scores) == *old(scores))
                &&& (!bad_period && ids_left && tables_left ==> ({
                    let table_id = old(scores).tables@.len() as crate::TableId;
                    let o = final(self).oracles@[old(self).next_oracle_id as int];
                    &&& r == Ok::<OracleId, Error>(old(self).next_oracle_id)
                    &&& final(self).oracles@.len() == old(self).oracles@.len() + 1
                    &&& (forall|j: int|
                        0 <= j < old(self).oracles@.len() ==> #[trigger] final(self).oracles@[j]
                            == old(self).oracles@[j])
                    &&& o.name == name
                    &&& o.table == table_id
                    &&& o.sources_threshold == source_calculate_count
                    &&& o.period_handler == (PeriodHandler {
                        start: now,
                        calculate_period,
                        aggregate_period,
                        last_sources_update: 0,
                    })
                    &&& o.assets_name == assets
                    &&& o.sources@.len() == 0
                    &&& o.value.0@.len() == assets.0@.len()
                    &&& (forall|j: int|
                        0 <= j < assets.0@.len() ==> (#[trigger] o.value.0@[j]).value is None
                            && o.value.0@[j].last_changed is None)
                    &&& final(scores).tables@.len() == old(scores).tables@.len() + 1
                    &&& (forall|j: int|
                        0 <= j < old(scores).tables@.len() ==> #[trigger] final(scores).tables@[j]
                            == old(scores).tables@[j])
                    &&& ({
                        let t = final(scores).tables@[table_id as int];
                        &&& (t.name matches Some(n) && n@ == name@)
                        &&& t.head_count == source_calculate_count
                        &&& t.vote_asset == asset_id
                        &&& t.scores@.len() == 0
                        &&& t.reserved@.len() == 0
                    })
                }))
            }),
    {
        let handler = match PeriodHandler::new(now, calculate_period, aggregate_period) {
            Ok(h) => h,
            Err(e) => {
                return Err(e);
            },
        };
        if self.next_oracle_id == u64::MAX {
            return Err(Error::IdOverflow);
        }
        let table_name = copy_bytes(&name);
        let table = match scores.create(asset_id, source_calculate_count, Some(table_name)) {
            Ok(t) => t,
            Err(e) => {
                return Err(e);
            },
        };
        let id = match self.pop_new_oracle_id() {
            Ok(id) => id,
            Err(e) => {
                return Err(e);
            },
        };
        self.oracles.push(
            Oracle::new(name, table, handler, source_calculate_count, assets),
        );
        Ok(id)
    }

    /// Records the signer's reports for every asset of oracle `oracle_id`
    /// at `now`. When the committee is due for rotation, rotates it from
    /// the scoreboard head first and marks the rotation time. Reports are
    /// only accepted from committee members, with one value per asset,
    /// during the aggregate window; on any failure nothing changes.
    pub fn commit(
        &mut self,
        scores: &tablescore::Module,
        who: AccountId,
        oracle_id: OracleId,
        values: AssetsVec<ValueType>,
        now: Moment,
    ) -> (r: Result<(), Error>)
        requires
            old(self).wf(),
            scores.wf(),
            oracle_id < old(self).oracles@.len() ==> old(self).oracles@[oracle_id as int]
                .times_bounded_by(now),
        ensures
            final(self).wf(),
            oracle_id >= old(self).oracles@.len() ==> r == Err::<(), Error>(Error::UnknownOracle)
                && *final(self) == *old(self),
            oracle_id < old(self).oracles@.len() ==> ({
                let o = old(self).oracles@[oracle_id as int];
                let rotate = o.period_handler.spec_is_source_update_needed(now);
                let table_ok = !rotate || o.table < scores.tables@.len();
                let head = if rotate && o.table < scores.tables@.len() {
                    scores.tables@[o.table as int].head_of()
                } else {
                    Seq::<AccountId>::empty()
                };
                let enough = !rotate || distinct_count_of(head) >= o.sources_threshold;
                let arity_ok = values.0@.len() == o.assets_count();
                let member = if rotate {
                    head.contains(who)
                } else {
                    has_source(o.sources@, who)
                };
                let agg = o.period_handler.spec_is_aggregate_time(now);
                &&& (!table_ok ==> r == Err::<(), Error>(Error::UnknownTable) && *final(self)
                    == *old(self))
                &&& (table_ok && !enough ==> r == Err::<(), Error>(
                    Error::TooFewAccounts(
                        o.sources_threshold as usize,
                        distinct_count_of(head) as usize,
                    ),
                ) && *final(self) == *old(self))
                &&& (table_ok && enough && !arity_ok ==> r == Err::<(), Error>(
                    Error::ArityMismatch,
                ) && *final(self) == *old(self))
                &&& (table_ok && enough && arity_ok && !member ==> r == Err::<(), Error>(
                    Error::AccountAccess,
                ) && *final(self) == *old(self))
                &&& (table_ok && enough && arity_ok && member && !agg ==> r == Err::<(), Error>(
                    Error::NotAggregateTime,
                ) && *final(self) == *old(self))
                &&& (r is Ok <==> table_ok && enough && arity_ok && member && agg)
                &&& (r is Ok ==> ({
                    let o_new = final(self).oracles@[oracle_id as int];
                    &&& final(self).oracles@.len() == old(self).oracles@.len()
                    &&& final(self).next_oracle_id == old(self).next_oracle_id
                    &&& (forall|j: int|
                        0 <= j < old(self).oracles@.len() && j != oracle_id
                            ==> #[trigger] final(self).oracles@[j] == old(self).oracles@[j])
                    &&& o_new.name == o.name
                    &&& o_new.table == o.table
                    &&& o_new.sources_threshold == o.sources_threshold
                    &&& o_new.assets_name == o.assets_name
                    &&& o_new.value == o.value
                    &&& (rotate ==> o_new.period_handler == (PeriodHandler {
                        last_sources_update: now,
                        ..o.period_handler
                    }))
                    &&& (!rotate ==> o_new.period_handler == o.period_handler)
                    &&& (forall|a: AccountId| #[trigger]
                        has_source(o_new.sources@, a) <==> (if rotate {
                            head.contains(a)
                        } else {
                            has_source(o.sources@, a)
                        }))
                    &&& row_of(o_new.sources@, who) == Seq::new(
                        o.assets_count() as nat,
                        |j: int|
                            ExternalValue { value: Some(values.0@[j]), last_changed: Some(now) },
                    )
                    &&& (forall|a: AccountId|
                        a != who && #[trigger] has_source(o_new.sources@, a) ==> row_of(
                            o_new.sources@,
                            a,
                        ) == (if rotate {
                            o.rotate_row(a)
                        } else {
                            row_of(o.sources@, a)
                        }))
                }))
            }),
    {
        if oracle_id >= self.oracles.len() as u64 {
            return Err(Error::UnknownOracle);
        }
        let idx = oracle_id as usize;
        let ghost o_old = self.oracles@[oracle_id as int];
        let rotate = self.oracles[idx].period_handler.is_source_update_needed(now);
        let mut ns_opt: Option<Vec<(AccountId, AssetsVec<ExternalValue>)>> = None;
        if rotate {
            let table_id = self.oracles[idx].table;
            let head = match scores.get_head(&table_id) {
                Ok(h) => h,
                Err(_) => {
                    return Err(Error::UnknownTable);
                },
            };
            let ns = self.oracles[idx].build_sources(&head);
            let th = self.oracles[idx].sources_threshold as usize;
            if ns.len() < th {
                return Err(Error::TooFewAccounts(th, ns.len()));
            }
            ns_opt = Some(ns);
        }
        if values.0.len() != self.oracles[idx].get_assets_count() {
            return Err(Error::ArityMismatch);
        }
        let member = match &ns_opt {
            Some(ns) => {
                let f = find_src(ns, who);
                proof {
                    if f is Some {
                        assert(source_at(ns@, f->Some_0 as int, who));
                        assert(has_source(ns@, who));
                    }
                }
                f.is_some()
            },
            None => self.oracles[idx].is_source(who),
        };
        if !member {
            return Err(Error::AccountAccess);
        }
        if !self.oracles[idx].period_handler.is_aggregate_time(now) {
            return Err(Error::NotAggregateTime);
        }
        let o = &mut self.oracles[idx];
        match ns_opt {
            Some(ns) => {
                o.sources = ns;
                o.period_handler.update_source_time(now);
            },
            None => {},
        }
        proof {
            assert(o.wf());
            assert(has_source(o.sources@, who));
            let count = o.assets_count();
            assert forall|j: int| 0 <= j < count implies ((#[trigger] row_of(
                o.sources@,
                who,
            )[j]).last_changed matches Some(t) ==> t <= now) by {
                let k = sidx_of(o.sources@, who);
                assert(source_at(o.sources@, k, who));
                if rotate {
                    assert(o.sources@[k].1.0@ == o_old.rotate_row(who));
                    if has_source(o_old.sources@, who) {
                        let k2 = sidx_of(o_old.sources@, who);
                        assert(source_at(o_old.sources@, k2, who));
                        assert(row_of(o_old.sources@, who) == o_old.sources@[k2].1.0@);
                        assert((o_old.sources@[k2].1.0@[j]).last_changed matches Some(t) ==> t
                            <= now);
                    }
                } else {
                    assert((o_old.sources@[k].1.0@[j]).last_changed matches Some(t) ==> t <= now);
                }
            }
        }
        let res = o.commit_value(&who, values, now);
        match res {
            Ok(()) => Ok(()),
            // Unreachable: the signer was checked against the committee the
            // report lands in.
            Err(_) => {
                proof {
                    assert(false);
                }
                Err(Error::AccountAccess)
            },
        }
    }

    /// Finalizes asset `number` of oracle `oracle_id` at `now`: once per
    /// period per asset, the median of the committed reports is published
    /// and returned. Returns `NotYet` while the asset's published value is
    /// from the current period; on any failure nothing changes.
    pub fn calculate(&mut self, oracle_id: OracleId, number: u8, now: Moment) -> (r: Result<
        ValueType,
        Error,
    >)
        requires
            old(self).wf(),
        ensures
            final(self).wf(),
            oracle_id >= old(self).oracles@.len() ==> r == Err::<ValueType, Error>(
                Error::UnknownOracle,
            ) && *final(self) == *old(self),
            oracle_id < old(self).oracles@.len() ==> ({
                let o = old(self).oracles@[oracle_id as int];
                let gate = number < o.assets_count()
                    && o.period_handler.spec_is_calculate_time(
                    o.value.0@[number as int].last_changed,
                    now,
                );
                &&& (!gate ==> r == Err::<ValueType, Error>(Error::NotYet) && *final(self)
                    == *old(self))
                &&& (gate && o.sources@.len() < o.sources_threshold ==> r == Err::<
                    ValueType,
                    Error,
                >(
                    Error::TooFewAccounts(
                        o.sources_threshold as usize,
                        o.sources@.len() as usize,
                    ),
                ) && final(self).oracles@ == old(self).oracles@ && final(self).next_oracle_id
                    == old(self).next_oracle_id)
                &&& (gate && o.sources@.len() >= o.sources_threshold ==> ({
                    let c = crate::oracle::committed_of(o.sources@, number as int);
                    &&& (c.len() < o.sources_threshold ==> r == Err::<ValueType, Error>(
                        Error::TooFewCommittedValues(
                            o.sources_threshold as usize,
                            c.len() as usize,
                        ),
                    ) && final(self).oracles@ == old(self).oracles@
                        && final(self).next_oracle_id == old(self).next_oracle_id)
                    &&& (c.len() >= o.sources_threshold ==> ({
                        &&& (median_of(c) is None ==> r == Err::<ValueType, Error>(
                            Error::CalculationError,
                        ) && final(self).oracles@ == old(self).oracles@
                            && final(self).next_oracle_id == old(self).next_oracle_id)
                        &&& (match median_of(c) {
                            Some(Median::Value(v)) => r == Ok::<ValueType, Error>(v),
                            Some(Median::Pair(a, b)) => r matches Ok(m) && m == (a + b) / 2,
                            None => true,
                        })
                        &&& (median_of(c) is Some ==> (r matches Ok(m) && ({
                            let o_new = final(self).oracles@[oracle_id as int];
                            &&& final(self).oracles@.len() == old(self).oracles@.len()
                            &&& final(self).next_oracle_id == old(self).next_oracle_id
                            &&& (forall|j: int|
                                0 <= j < old(self).oracles@.len() && j != oracle_id
                                    ==> #[trigger] final(self).oracles@[j] == old(
                                    self,
                                ).oracles@[j])
                            &&& o_new.name == o.name
                            &&& o_new.table == o.table
                            &&& o_new.sources_threshold == o.sources_threshold
                            &&& o_new.period_handler == o.period_handler
                            &&& o_new.assets_name == o.assets_name
                            &&& o_new.sources == o.sources
                            &&& o_new.value.0@ == o.value.0@.update(
                                number as int,
                                ExternalValue { value: Some(m), last_changed: Some(now) },
                            )
                        })))
                    }))
                }))
            }),
    {
        if oracle_id >= self.oracles.len() as u64 {
            return Err(Error::UnknownOracle);
        }
        let idx = oracle_id as usize;
        let num = number as usize;
        if !self.oracles[idx].is_calculate_time(num, now) {
            return Err(Error::NotYet);
        }
        let o = &mut self.oracles[idx];
        proof {
            if o.value.0@[num as int].last_changed is Some {
                let t = o.value.0@[num as int].last_changed->Some_0;
                if t > now {
                    lemma_period_monotonic(o.period_handler, now, t);
                }
            }
        }
        let res = o.calculate_median(num, now);
        match res {
            Ok(v) => Ok(v),
            Err(e) => Err(from_oracle_error(e)),
        }
    }
}

/// An element-wise copy of a name.
fn copy_bytes(v: &Vec<u8>) -> (r: Vec<u8>)
    ensures
        r@ == v@,
{
    let mut r: Vec<u8> = Vec::new();
    let mut i: usize = 0;
    while i < v.len()
        invariant
            i <= v@.len(),
            r@ == v@.take(i as int),
        decreases v@.len() - i,
    {
        let ghost r0 = r@;
        r.push(v[i]);
        proof {
            assert(r0.push(v@[i as int]) =~= v@.take(i + 1));
        }
        i = i + 1;
    }
    proof {
        assert(v@.take(v@.len() as int) =~= v@);
    }
    r
}

} // verus!
