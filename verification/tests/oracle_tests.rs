use dpos_oracle::external_value::ExternalValue;
use dpos_oracle::oracle::AssetsVec;
use dpos_oracle::oracle::Oracle;
use dpos_oracle::oracle::OracleError;
use dpos_oracle::period_handler::PeriodHandler;

fn get_period_handler() -> PeriodHandler {
    PeriodHandler::new(100, 10, 5).unwrap()
}

fn get_assets_vec(names: &[&str]) -> AssetsVec<Vec<u8>> {
    AssetsVec(names.iter().map(|s| s.as_bytes().to_vec()).collect())
}

fn get_oracle() -> Oracle {
    Oracle::new(
        "test".as_bytes().to_vec(),
        0,
        get_period_handler(),
        9,
        get_assets_vec(&["f", "s", "t"]),
    )
}

fn update_values(oracle: &mut Oracle, accounts: Vec<u64>, now: u64, values: Vec<Vec<u128>>) {
    for account in accounts.into_iter() {
        oracle
            .commit_value(
                &account,
                AssetsVec(
                    values
                        .iter()
                        .map(|assets| {
                            assets.get(account as usize).expect("Wrong values matrix").clone()
                        })
                        .collect(),
                ),
                now,
            )
            .expect(&format!("Can't commit for {}.", account).to_string());
    }
}

fn update_oracle(oracle: &mut Oracle, now: u64, values: Vec<Vec<u128>>) {
    let accounts: Vec<u64> = oracle.sources.iter().map(|entry| entry.0).collect();
    update_values(oracle, accounts, now, values);
}

#[test]
fn oracle_create_oracle() {
    let oracle = get_oracle();
    assert_eq!(oracle.value.0.len(), 3);
    assert!(
        oracle.value.0.iter().all(|ex_val| ex_val.value.is_none() && ex_val.last_changed.is_none())
    );
}

#[test]
fn calculate_error_few_accounts() {
    let mut oracle = get_oracle();
    assert_eq!(oracle.value.0.len(), 3);
    assert_eq!(
        oracle.update_accounts((1..=3).collect()),
        Err(OracleError::TooFewAccounts(9, 3))
    );
    update_oracle(&mut oracle, 101, vec![vec![1; 10], vec![2; 10], vec![3; 10]]);

    assert_eq!(oracle.calculate_median(0, 102), Err(OracleError::TooFewAccounts(9, 3)));
}

#[test]
fn calculate_error_few_commits() {
    let mut oracle = get_oracle();
    assert_eq!(oracle.value.0.len(), 3);
    assert_eq!(oracle.update_accounts((0..=10).collect()), Ok(()));

    update_values(
        &mut oracle,
        (0..=5).collect(),
        101,
        vec![vec![1; 10], vec![2; 10], vec![3; 10]],
    );

    assert_eq!(oracle.calculate_median(0, 102), Err(OracleError::TooFewCommitedValue(9, 6)));
}

#[test]
fn simple_calculate_median() {
    let mut oracle = get_oracle();
    assert_eq!(oracle.update_accounts((0..=10).collect()), Ok(()));
    update_oracle(&mut oracle, 101, vec![vec![1; 11], vec![2; 11], vec![3; 11]]);

    assert_eq!(oracle.calculate_median(0, 102), Ok(1));
    assert_eq!(oracle.calculate_median(1, 102), Ok(2));
    assert_eq!(oracle.calculate_median(2, 102), Ok(3));
}

#[test]
fn calculate_median() {
    let mut oracle = get_oracle();
    assert_eq!(oracle.update_accounts((0..=11).collect()), Ok(()));
    update_oracle(
        &mut oracle,
        101,
        vec![(100..=112u128).collect::<Vec<u128>>(), vec![0; 12], vec![0; 12]],
    );
    // Twelve committed reports, 100..=111. The median of an even-sized
    // sample averages the two middle elements: (105 + 106) / 2.
    assert_eq!(oracle.calculate_median(0, 102), Ok(105));
}

#[test]
fn committee_of_eleven_reports_increasing_values() {
    let mut oracle = get_oracle();
    assert_eq!(oracle.update_accounts((0..=10).collect()), Ok(()));
    update_oracle(
        &mut oracle,
        101,
        vec![(100..=110u128).collect::<Vec<u128>>(), vec![0; 11], vec![0; 11]],
    );
    // Eleven committed reports, 100..=110: the median is the middle one.
    assert_eq!(oracle.calculate_median(0, 102), Ok(105));
}

#[test]
fn wrong_asset_id_is_rejected() {
    let mut oracle = get_oracle();
    assert_eq!(oracle.calculate_median(5, 102), Err(OracleError::WrongAssetId(5)));
}

#[test]
fn commit_from_outside_the_committee_is_rejected() {
    let mut oracle = get_oracle();
    assert_eq!(oracle.update_accounts((0..=10).collect()), Ok(()));
    assert_eq!(
        oracle.commit_value(&99, AssetsVec(vec![1, 2, 3]), 101),
        Err(OracleError::AccountAccess)
    );
}

#[test]
fn calculation_error_needs_fewer_than_two_reports() {
    // With a threshold this small, a single report passes both guards and
    // the median of one value does not exist.
    let mut oracle = Oracle::new(
        "lone".as_bytes().to_vec(),
        0,
        get_period_handler(),
        1,
        get_assets_vec(&["f"]),
    );
    assert_eq!(oracle.update_accounts(vec![7]), Ok(()));
    assert_eq!(oracle.commit_value(&7, AssetsVec(vec![55]), 101), Ok(()));
    assert_eq!(oracle.calculate_median(0, 102), Err(OracleError::CalculationError));
}

#[test]
fn external_value_round_trip() {
    let mut ev = ExternalValue::new();
    assert_eq!(ev.value, None);
    assert_eq!(ev.last_changed, None);

    ev.update(77, 1000);
    assert_eq!(ev.value, Some(77));
    assert_eq!(ev.last_changed, Some(1000));

    ev.clean();
    assert_eq!(ev.value, None);
    assert_eq!(ev.last_changed, None);
}

#[test]
fn external_value_orders_absent_before_present() {
    let empty = ExternalValue::new();
    let early = ExternalValue::with_value(5, 10);
    let late = ExternalValue::with_value(5, 20);
    let big = ExternalValue::with_value(6, 1);

    assert!(empty.le(&early));
    assert!(!early.le(&empty));
    assert!(early.le(&late));
    assert!(!late.le(&early));
    assert!(late.le(&big));
    assert!(early.le(&early));
}

#[test]
fn rotation_with_same_committee_keeps_reports() {
    let mut oracle = get_oracle();
    assert_eq!(oracle.update_accounts((0..=10).collect()), Ok(()));
    update_oracle(&mut oracle, 101, vec![vec![1; 11], vec![2; 11], vec![3; 11]]);
    let before = oracle.sources.clone();

    let head: Vec<u64> = oracle.sources.iter().map(|entry| entry.0).collect();
    assert_eq!(oracle.update_accounts(head), Ok(()));

    assert_eq!(oracle.sources, before);
}

#[test]
fn rotation_keeps_old_rows_and_blanks_newcomers() {
    let mut oracle = get_oracle();
    assert_eq!(oracle.update_accounts((0..=10).collect()), Ok(()));
    update_oracle(&mut oracle, 101, vec![vec![1; 11], vec![2; 11], vec![3; 11]]);

    // Accounts 2..=10 stay, 20 and 21 join.
    let mut head: Vec<u64> = (2..=10).collect();
    head.push(20);
    head.push(21);
    assert_eq!(oracle.update_accounts(head), Ok(()));

    for entry in oracle.sources.iter() {
        if entry.0 <= 10 {
            assert!(entry.1 .0.iter().all(|ev| ev.value.is_some()));
        } else {
            assert!(entry.1 .0.iter().all(|ev| ev.value.is_none()));
        }
    }
}

#[test]
fn duplicate_accounts_count_once() {
    let mut oracle = Oracle::new(
        "dup".as_bytes().to_vec(),
        0,
        get_period_handler(),
        3,
        get_assets_vec(&["f"]),
    );
    assert_eq!(
        oracle.update_accounts(vec![4, 4, 4, 5]),
        Err(OracleError::TooFewAccounts(3, 2))
    );
}
