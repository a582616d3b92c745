//! Core of a delegated-proof-of-stake price oracle.
//!
//! Named oracles elect a bounded committee of data-source accounts through
//! stake-weighted voting on a scoreboard ([`tablescore`]), accept per-asset
//! reports from committee members during the aggregate window of each period
//! ([`period_handler`]), and publish one canonical value per asset per period,
//! the median of the committed reports ([`median`], [`oracle`]).
//!
//! The host runtime's collaborators are injected as plain values: the
//! monotonic clock is a `Moment` argument on every entry point, the signer is
//! an `AccountId` argument, and the fungible-asset reserve primitives are a
//! [`assets::Assets`] ledger handed in by reference.

use vstd::prelude::*;
use vstd::string::StrSliceExecFns;
use vstd::string::StringSliceAdditionalSpecFns;

pub mod assets;
pub mod external_value;
pub mod median;
pub mod module;
pub mod oracle;
pub mod period_handler;
pub mod tablescore;

verus! {

/// An account, identified by index.
pub type AccountId = u64;

/// An amount of some fungible asset.
pub type Balance = u128;

/// Identifies a fungible asset of the ledger.
pub type AssetId = u64;

/// A monotonic timestamp.
pub type Moment = u64;

/// A span of monotonic time.
pub type TimeInterval = u64;

/// Identifies a scoreboard table. Dense, monotonic, zero-origin.
pub type TableId = u64;

/// Identifies an oracle. Dense, monotonic, zero-origin.
pub type OracleId = u64;

/// The numeric domain of reported and published values.
pub type ValueType = u128;

/// A name, as raw bytes.
pub type RawString = Vec<u8>;

/// Every failure a transaction entry point can surface.
///
/// All failures are transaction-local: the entry points leave no partial
/// state behind when they return one of these.
#[derive(Clone, Copy, PartialEq, Eq, Debug)]
pub enum Error {
    /// A period handler was configured with a zero period or with an
    /// aggregate window at least as long as the calculate period.
    InvalidPeriod,
    /// An identifier sequence is exhausted.
    IdOverflow,
    /// No table is stored under the given identifier.
    UnknownTable,
    /// No oracle is stored under the given identifier.
    UnknownOracle,
    /// The signer is not a member of the oracle's committee.
    AccountAccess,
    /// Reports are only accepted during the aggregate window.
    NotAggregateTime,
    /// The asset was already finalized in the current period.
    NotYet,
    /// The committee is smaller than the threshold: `(threshold, got)`.
    TooFewAccounts(usize, usize),
    /// Fewer committed reports than the threshold: `(threshold, got)`.
    TooFewCommittedValues(usize, usize),
    /// A report vector does not have one entry per asset.
    ArityMismatch,
    /// The asset index is out of range.
    WrongAssetId(usize),
    /// The voter's free balance does not cover the requested reserve.
    InsufficientFunds,
    /// The median of the committed reports does not exist; only reachable
    /// when the threshold admits fewer than two reports.
    CalculationError,
}

impl Error {
    /// A stable human-readable description of the failure.
    pub fn to_str(&self) -> &'static str {
        match self {
            Error::InvalidPeriod => "Wrong period params.",
            Error::IdOverflow => "Id overflow. Can't get next id.",
            Error::UnknownTable => "Can't find table.",
            Error::UnknownOracle => "Can't find oracle.",
            Error::AccountAccess => "Your account is not a source for the oracle.",
            Error::NotAggregateTime => "No data aggregation at this time.",
            Error::NotYet => "The calculation time has not come. Use old value.",
            Error::TooFewAccounts(_, _) => "There are fewer accounts than the minimum.",
            Error::TooFewCommittedValues(_, _) => "There are fewer actual values than the minimum.",
            Error::ArityMismatch => "The number of assets does not match.",
            Error::WrongAssetId(_) => "Wrong asset id.",
            Error::InsufficientFunds => "Insufficient funds to reserve.",
            Error::CalculationError => "Unknown calculation error.",
        }
    }
}

/// The bytes of a static name, as the storage layer keeps them.
pub fn to_raw(data: &&'static str) -> (r: Vec<u8>)
    ensures
        r@ == data.spec_bytes(),
{
    data.as_bytes_vec()
}

/// Reference configuration marker: this crate states every module over the
/// concrete account, balance, asset and moment types aliased above.
#[derive(Clone, Copy, PartialEq, Eq, Debug)]
pub struct Test;

/// Liveness probe for account indices: this runtime never reclaims an index,
/// so no account is ever reported dead.
pub struct TestIsDeadAccount {}

impl TestIsDeadAccount {
    pub fn is_dead_account(_who: &AccountId) -> (r: bool)
        ensures
            !r,
    {
        false
    }
}

} // verus!
