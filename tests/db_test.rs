use splitwise::db::{Database, StoreError};

#[test]
fn db_test_add_user() {
    let mut db = Database::new().expect("Failed to connect to DB");
    let user_id = db.add_user("Alice").expect("Failed to add user");
    assert!(user_id > 0, "User ID should be greater than zero");
}

#[test]
fn db_test_add_payment() {
    let mut db = Database::new().expect("Failed to connect to DB");
    let user_id = db.add_user("Bob").expect("Failed to add user");
    db.add_payment("Lunch", 2000, user_id).expect("Failed to add payment");

    let payments = db.get_all_payments();
    assert_eq!(payments.len(), 1);
    assert_eq!(payments[0].amount, 2000);
    assert_eq!(payments[0].description, "Lunch");
}

#[test]
fn test_settle_payment() {
    let mut db = Database::new().expect("Failed to connect to DB");
    let user_id = db.add_user("Charlie").expect("Failed to add user");
    db.add_payment("Dinner", 3000, user_id).expect("Failed to add payment");
    db.settle_payment("Charlie", 3000).expect("Failed to settle payment");

    let balances = db.get_balances_with_users();
    assert_eq!(balances[0].1, 0, "Balance should be zero after settlement");
}

#[test]
fn db_test_test_add_user() {
    let mut db = Database::new().unwrap();
    let user_id = db.add_user("Alice").expect("Failed to add user");

    assert!(user_id > 0);
    // A user without payments has no balance row.
    assert_eq!(db.get_balances_with_users().len(), 0);
}

#[test]
fn db_test_test_add_payment() {
    let mut db = Database::new().unwrap();
    let user_id = db.add_user("Bob").unwrap();
    db.add_payment("Lunch", 2000, user_id).unwrap();

    let payments = db.get_all_payments();
    assert_eq!(payments.len(), 1);
    assert_eq!(payments[0].description, "Lunch");
    assert_eq!(payments[0].amount, 2000);
}

#[test]
fn add_user_twice_gives_same_id() {
    let mut db = Database::new().unwrap();
    let a = db.add_user("Alice").unwrap();
    let b = db.add_user("Bob").unwrap();
    let a2 = db.add_user("Alice").unwrap();
    assert_eq!(a, 1);
    assert_eq!(b, 2);
    assert_eq!(a2, a);
    assert_eq!(db.get_all_users().len(), 2);
}

#[test]
fn get_user_by_name_finds_exact_name() {
    let mut db = Database::new().unwrap();
    db.add_user("Alice").unwrap();
    let id = db.add_user("Bob").unwrap();
    let u = db.get_user_by_name("Bob").unwrap();
    assert_eq!(u.id, id);
    assert_eq!(u.name, "Bob");
    assert!(db.get_user_by_name("bob").is_none());
}

#[test]
fn payment_for_unknown_payee_is_refused() {
    let mut db = Database::new().unwrap();
    db.add_user("Alice").unwrap();
    assert_eq!(db.add_payment("Lunch", 100, 2), Err(StoreError::UnknownPayee));
    assert_eq!(db.add_payment("Lunch", 100, 0), Err(StoreError::UnknownPayee));
    assert!(db.get_all_payments().is_empty());
}

#[test]
fn settle_with_unknown_name_writes_nothing() {
    let mut db = Database::new().unwrap();
    let id = db.add_user("Alice").unwrap();
    db.add_payment("Lunch", 500, id).unwrap();
    assert_eq!(db.settle_payment("Zed", 500), Ok(()));
    assert_eq!(db.get_all_payments().len(), 1);
    assert!(db.get_user_by_name("Zed").is_none());
}

#[test]
fn settlement_records_negated_amount() {
    let mut db = Database::new().unwrap();
    let id = db.add_user("Bob").unwrap();
    db.settle_payment("Bob", 1000).unwrap();
    let payments = db.get_all_payments();
    assert_eq!(payments[0].description, "Settlement with Bob");
    assert_eq!(payments[0].amount, -1000);
    assert_eq!(payments[0].payee_id, id);
    assert_eq!(payments[0].payee_name, "Bob");
    assert!(!payments[0].is_settled);
}

#[test]
fn balances_sum_signed_amounts_per_user() {
    let mut db = Database::new().unwrap();
    let a = db.add_user("Alice").unwrap();
    let _ = db.add_user("Carol").unwrap();
    let b = db.add_user("Bob").unwrap();
    db.add_payment("Lunch", 1000, a).unwrap();
    db.add_payment("Taxi", 250, b).unwrap();
    db.add_payment("Cinema", 700, a).unwrap();
    db.settle_payment("Alice", 300).unwrap();
    let balances = db.get_balances_with_users();
    assert_eq!(balances.len(), 2);
    assert_eq!(balances[0].0, "Alice");
    assert_eq!(balances[0].1, 1400);
    assert_eq!(balances[1].0, "Bob");
    assert_eq!(balances[1].1, 250);
}

#[test]
fn split_then_settle_share_zeroes_balance() {
    let mut db = Database::new().unwrap();
    let id = db.add_user("Dan").unwrap();
    let share = splitwise::amount::split_share_of(4250);
    db.add_payment("Dinner", share, id).unwrap();
    db.settle_payment("Dan", share).unwrap();
    let balances = db.get_balances_with_users();
    assert_eq!(balances.len(), 1);
    assert_eq!(balances[0].1, 0);
}

#[test]
fn store_has_room_when_new() {
    let db = Database::new().unwrap();
    assert!(db.has_room());
}
