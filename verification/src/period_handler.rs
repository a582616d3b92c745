//! Partitioning of monotonic time into calculate periods, each ending with a
//! shorter aggregate window.

use vstd::prelude::*;

use vstd::arithmetic::div_mod::lemma_fundamental_div_mod;
use vstd::arithmetic::div_mod::lemma_fundamental_div_mod_converse;

use crate::Error;
use crate::Moment;
use crate::TimeInterval;

verus! {

/// Partitions time from `start` into periods of `calculate_period` units.
/// The last `aggregate_period` units of each period form its aggregate
/// window, during which reports are accepted and committees rotate.
#[derive(Clone, Copy, PartialEq, Eq, Debug)]
pub struct PeriodHandler {
    pub start: Moment,
    pub calculate_period: TimeInterval,
    pub aggregate_period: TimeInterval,
    pub last_sources_update: Moment,
}

impl PeriodHandler {
    /// Both periods are positive and the aggregate window is strictly
    /// shorter than the period it ends.
    pub open spec fn wf(self) -> bool {
        0 < self.aggregate_period < self.calculate_period
    }

    /// Time elapsed since `start`; moments before `start` count as zero.
    pub open spec fn elapsed_of(self, now: Moment) -> int {
        if now <= self.start {
            0
        } else {
            now - self.start
        }
    }

    /// The index of the period that `now` falls in: `(now - start) / calc`.
    pub open spec fn period_of(self, now: Moment) -> int {
        self.elapsed_of(now) / (self.calculate_period as int)
    }

    /// `now` lies in the tail window of its period: no more than
    /// `aggregate_period` units before the next period begins.
    pub open spec fn spec_is_aggregate_time(self, now: Moment) -> bool {
        self.start + (self.period_of(now) + 1) * self.calculate_period - now
            <= self.aggregate_period
    }

    /// A value last finalized at `last` may be finalized again at `now` only
    /// in a strictly later period; a never-finalized value may always be.
    pub open spec fn spec_is_calculate_time(self, last: Option<Moment>, now: Moment) -> bool {
        match last {
            Some(last_changed) => self.period_of(now) > self.period_of(last_changed),
            None => true,
        }
    }

    /// The committee must rotate: `now` is in an aggregate window and the
    /// last rotation happened in an earlier period.
    pub open spec fn spec_is_source_update_needed(self, now: Moment) -> bool {
        self.spec_is_aggregate_time(now) && self.period_of(self.last_sources_update)
            < self.period_of(now)
    }

    /// A handler anchored at `now`. Fails with `InvalidPeriod` unless both
    /// periods are positive and the aggregate window is strictly shorter
    /// than the calculate period.
    pub fn new(now: Moment, calculate_period: TimeInterval, aggregate_period: TimeInterval) -> (r:
        Result<PeriodHandler, Error>)
        ensures
            r is Err <==> (calculate_period <= aggregate_period || aggregate_period == 0),
            r matches Err(e) ==> e == Error::InvalidPeriod,
            r matches Ok(h) ==> h == (PeriodHandler {
                start: now,
                calculate_period,
                aggregate_period,
                last_sources_update: 0,
            }) && h.wf(),
    {
        if calculate_period <= aggregate_period || aggregate_period == 0 {
            Err(Error::InvalidPeriod)
        } else {
            Ok(
                PeriodHandler {
                    start: now,
                    calculate_period,
                    aggregate_period,
                    last_sources_update: 0,
                },
            )
        }
    }

    /// The index of the period that `now` falls in.
    pub fn get_period(&self, now: Moment) -> (r: Moment)
        requires
            self.wf(),
        ensures
            r == self.period_of(now),
    {
        let elapsed = if now >= self.start {
            now - self.start
        } else {
            0
        };
        elapsed / self.calculate_period
    }

    /// Whether `now` lies in the aggregate window of its period.
    pub fn is_aggregate_time(&self, now: Moment) -> (r: bool)
        requires
            self.wf(),
        ensures
            r == self.spec_is_aggregate_time(now),
    {
        let elapsed = if now >= self.start {
            now - self.start
        } else {
            0
        };
        let pos = elapsed % self.calculate_period;
        let r = self.calculate_period - pos <= self.aggregate_period;
        proof {
            let c = self.calculate_period as int;
            let q = self.period_of(now);
            lemma_fundamental_div_mod(elapsed as int, c);
            assert(elapsed as int == self.elapsed_of(now));
            assert(q == elapsed as int / c);
            assert(elapsed as int == c * q + pos);
            assert((q + 1) * c == c * q + c) by (nonlinear_arith);
            if now >= self.start {
                assert(self.start + (q + 1) * c - now == c - pos);
            } else {
                assert(elapsed == 0 && pos == 0 && q == 0);
                assert(self.start + (q + 1) * c - now > self.aggregate_period);
            }
        }
        r
    }

    /// Whether a value last finalized at `last_update_time` may be finalized
    /// at `now`.
    pub fn is_calculate_time(&self, last_update_time: Option<Moment>, now: Moment) -> (r: bool)
        requires
            self.wf(),
        ensures
            r == self.spec_is_calculate_time(last_update_time, now),
    {
        match last_update_time {
            Some(last_changed) => self.get_period(now) > self.get_period(last_changed),
            None => true,
        }
    }

    /// Records that the committee was rotated at `now`.
    pub fn update_source_time(&mut self, now: Moment)
        ensures
            *final(self) == (PeriodHandler { last_sources_update: now, ..*old(self) }),
    {
        self.last_sources_update = now;
    }

    /// Whether a write operation observing `now` must rotate the committee
    /// before it proceeds.
    pub fn is_source_update_needed(&self, now: Moment) -> (r: bool)
        requires
            self.wf(),
        ensures
            r == self.spec_is_source_update_needed(now),
    {
        self.is_aggregate_time(now) && self.get_period(self.last_sources_update)
            < self.get_period(now)
    }
}

impl Default for PeriodHandler {
    /// An all-zero handler, as the storage layer materializes absent entries.
    /// It is not well formed; every stored handler comes from
    /// [`PeriodHandler::new`].
    fn default() -> (r: PeriodHandler)
        ensures
            r == (PeriodHandler {
                start: 0,
                calculate_period: 0,
                aggregate_period: 0,
                last_sources_update: 0,
            }),
    {
        PeriodHandler { start: 0, calculate_period: 0, aggregate_period: 0, last_sources_update: 0 }
    }
}

/// Periods never run backwards: a later moment falls in the same or a
/// later period.
pub proof fn lemma_period_monotonic(h: PeriodHandler, t1: Moment, t2: Moment)
    requires
        h.wf(),
        t1 <= t2,
    ensures
        h.period_of(t1) <= h.period_of(t2),
{
    vstd::arithmetic::div_mod::lemma_div_is_ordered(
        h.elapsed_of(t1),
        h.elapsed_of(t2),
        h.calculate_period as int,
    );
}

/// Finalization is at most once per period: if an asset was finalized at
/// `t1`, no moment `t2` of the same period admits a second finalization.
pub proof fn lemma_at_most_once_per_period(h: PeriodHandler, t1: Moment, t2: Moment)
    requires
        h.wf(),
        h.period_of(t1) == h.period_of(t2),
    ensures
        !h.spec_is_calculate_time(Some(t1), t2),
{
}

/// Within period `p`, the aggregate window opens precisely at
/// `start + (p + 1) * calc - agg`: for every moment `t` of that period,
/// `t` is aggregate time if and only if it is at or past that boundary.
pub proof fn lemma_aggregate_window_boundary(h: PeriodHandler, p: nat, t: Moment)
    requires
        h.wf(),
        t >= h.start,
        h.period_of(t) == p,
    ensures
        h.spec_is_aggregate_time(t) <==> t >= h.start + (p + 1) * h.calculate_period
            - h.aggregate_period,
{
}

/// The boundary moment of period `p` is aggregate time and its predecessor
/// is not: the window opens exactly there.
pub proof fn lemma_aggregate_boundary_values(h: PeriodHandler, p: nat)
    requires
        h.wf(),
        h.start + (p + 1) * h.calculate_period <= u64::MAX,
    ensures
        h.spec_is_aggregate_time(
            (h.start + (p + 1) * h.calculate_period - h.aggregate_period) as u64,
        ),
        !h.spec_is_aggregate_time(
            (h.start + (p + 1) * h.calculate_period - h.aggregate_period - 1) as u64,
        ),
{
    let c = h.calculate_period as int;
    let a = h.aggregate_period as int;
    let t2 = h.start + (p + 1) * c - a;
    assert((p + 1) * c == p * c + c) by (nonlinear_arith);
    assert(p * c >= 0) by (nonlinear_arith)
        requires
            c >= 0,
    ;
    let e2 = t2 - h.start;
    lemma_fundamental_div_mod_converse(e2, c, p as int, c - a);
    assert(h.period_of(t2 as u64) == p);
    let e1 = e2 - 1;
    lemma_fundamental_div_mod_converse(e1, c, p as int, c - a - 1);
    assert(h.period_of((t2 - 1) as u64) == p);
}

} // verus!
