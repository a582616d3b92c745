use dpos_oracle::assets::Assets;
use dpos_oracle::tablescore::Module;
use dpos_oracle::tablescore::Table;
use dpos_oracle::Error;

const ASSET_ID: u64 = 123;
const BALANCE: u128 = 1000;

const ALICE: u64 = 1;
const BOB: u64 = 2;
const CAROL: u64 = 3;
const CHUCK: u64 = 4;

fn new_test_ledger() -> Assets {
    let mut ledger = Assets::new();
    for account in [ALICE, BOB, CAROL, CHUCK] {
        ledger.endow(ASSET_ID, account, BALANCE);
    }
    ledger
}

fn get_test_table() -> Table {
    Table {
        name: Some("test".as_bytes().to_vec()),
        head_count: 2,
        vote_asset: ASSET_ID,
        scores: Vec::new(),
        reserved: Vec::new(),
    }
}

#[test]
fn create_tablescore() {
    let mut module = Module::new();
    let id = module.next_tablescore_id();

    let table = get_test_table();
    assert!(
        module.create_table(ALICE, table.vote_asset, table.head_count, table.name.clone()).is_ok()
    );

    assert_eq!(module.scores(id).unwrap(), &table);
}

#[test]
fn vote_reserve_err_tablescore() {
    let mut module = Module::new();
    let mut ledger = new_test_ledger();
    let id = module.next_tablescore_id();
    let table = get_test_table();

    assert!(
        module.create_table(ALICE, table.vote_asset, table.head_count, table.name.clone()).is_ok()
    );

    assert!(module.vote(&mut ledger, ALICE, id, BALANCE + 1, 1).is_err());
}

#[test]
fn vote_tablescore() {
    let mut module = Module::new();
    let mut ledger = new_test_ledger();
    let id = module.next_tablescore_id();
    let table = get_test_table();
    assert!(module.create_table(ALICE, ASSET_ID, table.head_count, table.name.clone()).is_ok());

    assert!(module.vote(&mut ledger, ALICE, id, 3u128, 1).is_ok());
    assert!(module.vote(&mut ledger, BOB, id, 2u128, 2).is_ok());
    assert!(module.vote(&mut ledger, CAROL, id, 1u128, 3).is_ok());

    assert_eq!(module.get_head(&id).unwrap(), vec![1, 2]);

    assert!(module.vote(&mut ledger, CAROL, id, 4u128, 3).is_ok());

    assert_eq!(module.get_head(&id).unwrap(), vec![3, 1]);
}

#[test]
fn create_assigns_dense_ids_from_zero() {
    let mut module = Module::new();
    assert_eq!(module.create(ASSET_ID, 2, None).unwrap(), 0);
    assert_eq!(module.create(ASSET_ID, 3, None).unwrap(), 1);
    assert_eq!(module.next_tablescore_id(), 2);
}

#[test]
fn overdraw_leaves_scoreboard_unchanged() {
    let mut module = Module::new();
    let mut ledger = new_test_ledger();
    let id = module.create(ASSET_ID, 2, None).unwrap();

    assert_eq!(module.vote(&mut ledger, ALICE, id, 1001, 1), Err(Error::InsufficientFunds));

    assert_eq!(module.get_head(&id).unwrap(), Vec::<u64>::new());
    assert_eq!(ledger.free_balance(ASSET_ID, ALICE), 1000);
    assert_eq!(ledger.reserved_balance(ASSET_ID, ALICE), 0);
}

#[test]
fn unknown_table_is_reported() {
    let mut module = Module::new();
    let mut ledger = new_test_ledger();

    assert_eq!(module.vote(&mut ledger, ALICE, 9, 10, 1), Err(Error::UnknownTable));
    assert_eq!(module.unvote(&mut ledger, ALICE, 9), Err(Error::UnknownTable));
    assert_eq!(module.get_head(&9).unwrap_err(), Error::UnknownTable);
}

#[test]
fn revote_moves_the_exact_reserve_delta() {
    let mut module = Module::new();
    let mut ledger = new_test_ledger();
    let id = module.create(ASSET_ID, 2, None).unwrap();

    assert!(module.vote(&mut ledger, ALICE, id, 300, BOB).is_ok());
    assert_eq!(ledger.free_balance(ASSET_ID, ALICE), 700);
    assert_eq!(ledger.reserved_balance(ASSET_ID, ALICE), 300);

    assert!(module.vote(&mut ledger, ALICE, id, 500, BOB).is_ok());
    assert_eq!(ledger.free_balance(ASSET_ID, ALICE), 500);
    assert_eq!(ledger.reserved_balance(ASSET_ID, ALICE), 500);

    assert!(module.vote(&mut ledger, ALICE, id, 100, CAROL).is_ok());
    assert_eq!(ledger.free_balance(ASSET_ID, ALICE), 900);
    assert_eq!(ledger.reserved_balance(ASSET_ID, ALICE), 100);

    assert!(module.unvote(&mut ledger, ALICE, id).is_ok());
    assert_eq!(ledger.free_balance(ASSET_ID, ALICE), 1000);
    assert_eq!(ledger.reserved_balance(ASSET_ID, ALICE), 0);
}

#[test]
fn every_voter_reserve_matches_the_table() {
    let mut module = Module::new();
    let mut ledger = new_test_ledger();
    let id = module.create(ASSET_ID, 3, None).unwrap();

    assert!(module.vote(&mut ledger, ALICE, id, 3, 1).is_ok());
    assert!(module.vote(&mut ledger, BOB, id, 2, 2).is_ok());
    assert!(module.vote(&mut ledger, CAROL, id, 1, 3).is_ok());
    assert!(module.vote(&mut ledger, BOB, id, 7, 1).is_ok());
    assert!(module.unvote(&mut ledger, CAROL, id).is_ok());

    let table = module.scores(id).unwrap();
    for account in [ALICE, BOB, CAROL, CHUCK] {
        let placed: u128 = table
            .reserved
            .iter()
            .find(|entry| entry.0 == account)
            .map(|entry| entry.1.balance)
            .unwrap_or(0);
        assert_eq!(ledger.reserved_balance(ASSET_ID, account), placed);
    }
}

#[test]
fn head_depends_only_on_the_placed_records() {
    // Two tables receive the same votes in different orders.
    let mut first = Module::new();
    let mut second = Module::new();
    let mut ledger1 = new_test_ledger();
    let mut ledger2 = new_test_ledger();
    let id1 = first.create(ASSET_ID, 2, None).unwrap();
    let id2 = second.create(ASSET_ID, 2, None).unwrap();

    assert!(first.vote(&mut ledger1, ALICE, id1, 3, 1).is_ok());
    assert!(first.vote(&mut ledger1, BOB, id1, 2, 2).is_ok());
    assert!(first.vote(&mut ledger1, CAROL, id1, 1, 3).is_ok());

    assert!(second.vote(&mut ledger2, CAROL, id2, 1, 3).is_ok());
    assert!(second.vote(&mut ledger2, ALICE, id2, 3, 1).is_ok());
    assert!(second.vote(&mut ledger2, BOB, id2, 2, 2).is_ok());

    assert_eq!(first.get_head(&id1).unwrap(), second.get_head(&id2).unwrap());
}

#[test]
fn equal_balances_rank_by_ascending_target() {
    let mut module = Module::new();
    let mut ledger = new_test_ledger();
    let id = module.create(ASSET_ID, 3, None).unwrap();

    assert!(module.vote(&mut ledger, ALICE, id, 5, 30).is_ok());
    assert!(module.vote(&mut ledger, BOB, id, 5, 10).is_ok());
    assert!(module.vote(&mut ledger, CAROL, id, 5, 20).is_ok());

    assert_eq!(module.get_head(&id).unwrap(), vec![10, 20, 30]);
}
