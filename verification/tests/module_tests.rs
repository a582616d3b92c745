use dpos_oracle::assets::Assets;
use dpos_oracle::module::Module as OracleModule;
use dpos_oracle::oracle::AssetsVec;
use dpos_oracle::tablescore::Module as TablescoreModule;
use dpos_oracle::to_raw;
use dpos_oracle::Error;

const ASSET_ID: u64 = 123;
const BALANCE: u128 = 1000;

const ALICE: u64 = 1;
const BOB: u64 = 2;
const CAROL: u64 = 3;
const CHUCK: u64 = 4;

fn new_test_ledger() -> Assets {
    let mut ledger = Assets::new();
    for account in [ALICE, BOB, CAROL, CHUCK] {
        ledger.endow(ASSET_ID, account, BALANCE);
    }
    ledger
}

#[test]
fn no_account_is_dead() {
    assert!(!dpos_oracle::TestIsDeadAccount::is_dead_account(&ALICE));
    assert_eq!(to_raw(&"test"), "test".as_bytes().to_vec());
}

#[test]
fn tests_create_oracle() {
    let mut oracles = OracleModule::new();
    let mut scores = TablescoreModule::new();
    let id = oracles.next_oracle_id();
    let oracle = oracles.create(
        &mut scores,
        "test".to_owned().as_bytes().to_vec(),
        ASSET_ID,
        5,
        60,
        120,
        AssetsVec(["one", "two", "three"].iter().map(to_raw).collect()),
        0,
    );
    assert_eq!(oracle, Ok(id));
    assert_eq!(id, 0);
}

/// Creates an oracle over three assets with a committee of two, backed by
/// votes from Alice and Bob, at time zero (periods of 10, windows of 5).
fn committee_of_two() -> (OracleModule, TablescoreModule, Assets, u64) {
    let mut oracles = OracleModule::new();
    let mut scores = TablescoreModule::new();
    let mut ledger = new_test_ledger();
    let id = oracles
        .create(
            &mut scores,
            "rates".as_bytes().to_vec(),
            ASSET_ID,
            2,
            5,
            10,
            AssetsVec(["one", "two", "three"].iter().map(to_raw).collect()),
            0,
        )
        .unwrap();
    let table = oracles.oracles(id).unwrap().table;
    assert!(scores.vote(&mut ledger, ALICE, table, 3, ALICE).is_ok());
    assert!(scores.vote(&mut ledger, BOB, table, 2, BOB).is_ok());
    (oracles, scores, ledger, id)
}

#[test]
fn commit_and_calculate_through_the_dispatcher() {
    let (mut oracles, scores, _ledger, id) = committee_of_two();

    // t = 15: aggregate window of period 1; the first commit rotates the
    // committee in from the scoreboard head.
    assert_eq!(oracles.commit(&scores, ALICE, id, AssetsVec(vec![100, 200, 300]), 15), Ok(()));
    assert_eq!(oracles.commit(&scores, BOB, id, AssetsVec(vec![110, 210, 310]), 15), Ok(()));

    // Median of {100, 110} is their average.
    assert_eq!(oracles.calculate(id, 0, 16), Ok(105));
    assert_eq!(oracles.calculate(id, 1, 16), Ok(205));
    assert_eq!(oracles.calculate(id, 2, 16), Ok(305));
}

#[test]
fn second_finalization_in_a_period_returns_not_yet() {
    let (mut oracles, scores, _ledger, id) = committee_of_two();
    assert_eq!(oracles.commit(&scores, ALICE, id, AssetsVec(vec![100, 200, 300]), 15), Ok(()));
    assert_eq!(oracles.commit(&scores, BOB, id, AssetsVec(vec![110, 210, 310]), 15), Ok(()));

    assert_eq!(oracles.calculate(id, 0, 16), Ok(105));
    assert_eq!(oracles.calculate(id, 0, 17), Err(Error::NotYet));
    assert_eq!(oracles.calculate(id, 0, 19), Err(Error::NotYet));

    // The next period's reports make it calculable again.
    assert_eq!(oracles.commit(&scores, ALICE, id, AssetsVec(vec![120, 200, 300]), 25), Ok(()));
    assert_eq!(oracles.commit(&scores, BOB, id, AssetsVec(vec![130, 210, 310]), 25), Ok(()));
    assert_eq!(oracles.calculate(id, 0, 26), Ok(125));
}

#[test]
fn commit_guards_reject_bad_transactions() {
    let (mut oracles, scores, _ledger, id) = committee_of_two();

    assert_eq!(
        oracles.commit(&scores, ALICE, id + 1, AssetsVec(vec![1, 2, 3]), 15),
        Err(Error::UnknownOracle)
    );
    assert_eq!(
        oracles.commit(&scores, ALICE, id, AssetsVec(vec![1, 2]), 15),
        Err(Error::ArityMismatch)
    );
    assert_eq!(
        oracles.commit(&scores, CHUCK, id, AssetsVec(vec![1, 2, 3]), 15),
        Err(Error::AccountAccess)
    );

    // Join the window, then leave it: period 2 starts at 20, its window at 25.
    assert_eq!(oracles.commit(&scores, ALICE, id, AssetsVec(vec![1, 2, 3]), 15), Ok(()));
    assert_eq!(
        oracles.commit(&scores, ALICE, id, AssetsVec(vec![1, 2, 3]), 21),
        Err(Error::NotAggregateTime)
    );
}

#[test]
fn too_small_a_head_blocks_rotation() {
    let mut oracles = OracleModule::new();
    let mut scores = TablescoreModule::new();
    let mut ledger = new_test_ledger();
    let id = oracles
        .create(
            &mut scores,
            "thin".as_bytes().to_vec(),
            ASSET_ID,
            2,
            5,
            10,
            AssetsVec(["one"].iter().map(to_raw).collect()),
            0,
        )
        .unwrap();
    let table = oracles.oracles(id).unwrap().table;
    assert!(scores.vote(&mut ledger, ALICE, table, 3, ALICE).is_ok());

    assert_eq!(
        oracles.commit(&scores, ALICE, id, AssetsVec(vec![9]), 15),
        Err(Error::TooFewAccounts(2, 1))
    );
}

#[test]
fn too_few_commits_block_finalization() {
    let (mut oracles, scores, _ledger, id) = committee_of_two();
    assert_eq!(oracles.commit(&scores, ALICE, id, AssetsVec(vec![100, 200, 300]), 15), Ok(()));

    assert_eq!(oracles.calculate(id, 0, 16), Err(Error::TooFewCommittedValues(2, 1)));
    assert_eq!(oracles.calculate(id + 1, 0, 16), Err(Error::UnknownOracle));
}

#[test]
fn create_oracle_validates_the_period() {
    let mut oracles = OracleModule::new();
    let mut scores = TablescoreModule::new();
    assert_eq!(
        oracles.create(
            &mut scores,
            "bad".as_bytes().to_vec(),
            ASSET_ID,
            2,
            10,
            5,
            AssetsVec(["one"].iter().map(to_raw).collect()),
            0,
        ),
        Err(Error::InvalidPeriod)
    );
    // Nothing was created: neither an oracle nor a backing table.
    assert_eq!(oracles.next_oracle_id(), 0);
    assert_eq!(scores.next_tablescore_id(), 0);
}
