use sqlite_access::codec::Param;
use sqlite_access::commands::{executed, open, tx_begin, tx_commit, tx_exec, tx_query, tx_rollback, LastInsertId, Work};
use sqlite_access::error::DbError;
use sqlite_access::transaction::Finish;
use sqlite_access::value::Dynamic;
use sqlite_access::{DbInstances, DbTransaction};

fn name(s: &str) -> String {
    s.to_string()
}

fn one_database() -> DbInstances<u32> {
    let mut instances = DbInstances::new();
    open(&mut instances, name("app.db"), 1);
    instances
}

#[test]
fn new_slot_is_idle() {
    let transaction: DbTransaction<u32> = DbTransaction::new();
    assert!(!transaction.is_active());
    let transaction: DbTransaction<u32> = DbTransaction::default();
    assert!(!transaction.is_active());
}

#[test]
fn begin_on_idle_slot_is_admitted() {
    let instances = one_database();
    let mut transaction: DbTransaction<&str> = DbTransaction::new();
    assert_eq!(tx_begin(&instances, &transaction, name("app.db")).unwrap(), &1);
    assert!(!transaction.is_active());
    transaction.begin("tx").unwrap();
    assert!(transaction.is_active());
}

#[test]
fn second_begin_is_refused() {
    let instances = one_database();
    let mut transaction: DbTransaction<&str> = DbTransaction::new();
    transaction.begin("first").unwrap();
    assert!(matches!(tx_begin(&instances, &transaction, name("app.db")), Err(DbError::TooManyOpenTransactions)));
    assert!(matches!(transaction.begin("second"), Err(DbError::TooManyOpenTransactions)));
    assert!(matches!(transaction.begin("third"), Err(DbError::TooManyOpenTransactions)));
    match tx_commit(&mut transaction).unwrap() {
        Finish::Commit(tx) => assert_eq!(tx, "first"),
        Finish::Rollback(_) => panic!("rollback"),
    }
}

#[test]
fn begin_succeeds_again_after_commit_or_rollback() {
    let instances = one_database();
    let mut transaction: DbTransaction<u32> = DbTransaction::new();
    let mut accepted = 0;
    for round in 0..4u32 {
        for attempt in 0..3u32 {
            let admitted = tx_begin(&instances, &transaction, name("app.db")).is_ok();
            assert_eq!(admitted, attempt == 0);
            if admitted {
                transaction.begin(round).unwrap();
                accepted += 1;
            }
        }
        let finish = if round % 2 == 0 { tx_commit(&mut transaction) } else { tx_rollback(&mut transaction) };
        match finish.unwrap() {
            Finish::Commit(tx) => assert!(tx == round && round % 2 == 0),
            Finish::Rollback(tx) => assert!(tx == round && round % 2 == 1),
        }
        assert!(!transaction.is_active());
    }
    assert_eq!(accepted, 4);
}

#[test]
fn begin_on_an_unopened_name_fails_on_an_idle_slot() {
    let instances = one_database();
    let transaction: DbTransaction<&str> = DbTransaction::new();
    match tx_begin(&instances, &transaction, name("other.db")) {
        Err(DbError::DatabaseNotLoaded(db)) => assert_eq!(db, "other.db"),
        other => panic!("unexpected {:?}", other),
    }
    assert!(!transaction.is_active());
}

#[test]
fn every_begin_on_an_active_slot_is_one_too_many() {
    let instances = one_database();
    let mut transaction: DbTransaction<&str> = DbTransaction::new();
    transaction.begin("tx").unwrap();
    assert!(matches!(tx_begin(&instances, &transaction, name("app.db")), Err(DbError::TooManyOpenTransactions)));
    assert!(matches!(tx_begin(&instances, &transaction, name("other.db")), Err(DbError::TooManyOpenTransactions)));
    assert!(matches!(tx_begin(&instances, &transaction, name("")), Err(DbError::TooManyOpenTransactions)));
    let nothing_open: DbInstances<u32> = DbInstances::new();
    assert!(matches!(tx_begin(&nothing_open, &transaction, name("app.db")), Err(DbError::TooManyOpenTransactions)));
    assert_eq!(transaction.take().unwrap(), "tx");
}

#[test]
fn commit_on_idle_slot_fails() {
    let mut transaction: DbTransaction<u32> = DbTransaction::new();
    assert!(matches!(tx_commit(&mut transaction), Err(DbError::NoRunningTransaction)));
    assert!(matches!(tx_commit(&mut transaction), Err(DbError::NoRunningTransaction)));
    assert!(!transaction.is_active());
}

#[test]
fn rollback_on_idle_slot_fails() {
    let mut transaction: DbTransaction<u32> = DbTransaction::new();
    assert!(matches!(tx_rollback(&mut transaction), Err(DbError::NoRunningTransaction)));
    transaction.begin(1).unwrap();
    assert!(tx_rollback(&mut transaction).is_ok());
    assert!(matches!(tx_rollback(&mut transaction), Err(DbError::NoRunningTransaction)));
    assert!(matches!(tx_commit(&mut transaction), Err(DbError::NoRunningTransaction)));
}

#[test]
fn commit_takes_the_transaction_out() {
    let mut transaction: DbTransaction<&str> = DbTransaction::new();
    transaction.begin("tx").unwrap();
    match tx_commit(&mut transaction).unwrap() {
        Finish::Commit(tx) => assert_eq!(tx, "tx"),
        Finish::Rollback(_) => panic!("rollback"),
    }
    assert!(!transaction.is_active());
}

#[test]
fn rollback_takes_the_transaction_out() {
    let mut transaction: DbTransaction<&str> = DbTransaction::new();
    transaction.begin("tx").unwrap();
    match tx_rollback(&mut transaction).unwrap() {
        Finish::Rollback(tx) => assert_eq!(tx, "tx"),
        Finish::Commit(_) => panic!("commit"),
    }
    assert!(!transaction.is_active());
}

#[test]
fn statement_in_transaction_is_routed_to_it() {
    let instances = one_database();
    let mut transaction: DbTransaction<Vec<u32>> = DbTransaction::new();
    transaction.begin(vec![]).unwrap();
    {
        let job = tx_exec(&instances, name("app.db"), &mut transaction, name("UPDATE t SET v = ?"), vec![Dynamic::Bool(true)]).unwrap();
        assert_eq!(job.sql, "UPDATE t SET v = ?");
        assert_eq!(job.work, Work::Execute);
        assert_eq!(job.pool, &1);
        assert_eq!(job.params, vec![Param::Bool(true)]);
        job.tx.push(1);
    }
    {
        let job = tx_query(&instances, name("app.db"), &mut transaction, name("SELECT v FROM t"), vec![]).unwrap();
        assert_eq!(job.sql, "SELECT v FROM t");
        assert_eq!(job.work, Work::Fetch);
        assert_eq!(job.params, vec![]);
        job.tx.push(2);
    }
    assert!(transaction.is_active());
    match tx_commit(&mut transaction).unwrap() {
        Finish::Commit(tx) => assert_eq!(tx, vec![1, 2]),
        Finish::Rollback(_) => panic!("rollback"),
    }
}

#[test]
fn statement_in_transaction_on_idle_slot_fails() {
    let instances = one_database();
    let mut transaction: DbTransaction<u32> = DbTransaction::new();
    assert!(matches!(
        tx_exec(&instances, name("app.db"), &mut transaction, name("SELECT 1"), vec![]),
        Err(DbError::NoRunningTransaction)
    ));
    assert!(matches!(
        tx_query(&instances, name("app.db"), &mut transaction, name("SELECT 1"), vec![]),
        Err(DbError::NoRunningTransaction)
    ));
    assert!(!transaction.is_active());
}

#[test]
fn every_statement_in_transaction_on_an_idle_slot_has_no_transaction() {
    let instances = one_database();
    let mut transaction: DbTransaction<u32> = DbTransaction::new();
    assert!(matches!(
        tx_exec(&instances, name("x"), &mut transaction, name("SELECT 1"), vec![]),
        Err(DbError::NoRunningTransaction)
    ));
    assert!(matches!(
        tx_query(&instances, name("x"), &mut transaction, name("SELECT 1"), vec![]),
        Err(DbError::NoRunningTransaction)
    ));
    assert!(!transaction.is_active());
}

#[test]
fn statement_in_transaction_on_an_unopened_name_fails() {
    let instances = one_database();
    let mut transaction: DbTransaction<u32> = DbTransaction::new();
    transaction.begin(1).unwrap();
    match tx_exec(&instances, name("x"), &mut transaction, name("SELECT 1"), vec![]) {
        Err(DbError::DatabaseNotLoaded(db)) => assert_eq!(db, "x"),
        _ => panic!("routed"),
    }
    match tx_query(&instances, name("x"), &mut transaction, name("SELECT 1"), vec![]) {
        Err(DbError::DatabaseNotLoaded(db)) => assert_eq!(db, "x"),
        _ => panic!("routed"),
    }
    assert!(transaction.is_active());
    assert_eq!(transaction.take().unwrap(), 1);
}

#[test]
fn current_and_take_and_drain() {
    let mut transaction: DbTransaction<u32> = DbTransaction::new();
    assert!(matches!(transaction.current(), Err(DbError::NoRunningTransaction)));
    assert!(matches!(transaction.take(), Err(DbError::NoRunningTransaction)));
    assert_eq!(transaction.drain(), None);
    transaction.begin(5).unwrap();
    *transaction.current().unwrap() += 1;
    assert_eq!(transaction.take().unwrap(), 6);
    transaction.begin(7).unwrap();
    assert_eq!(transaction.drain(), Some(7));
    assert!(!transaction.is_active());
}

#[test]
fn reply_to_an_executed_statement() {
    assert_eq!(executed(1, 1), (1, LastInsertId::Sqlite(1)));
    assert_eq!(executed(0, -3), (0, LastInsertId::Sqlite(-3)));
    assert_eq!(executed(u64::MAX, i64::MAX), (u64::MAX, LastInsertId::Sqlite(i64::MAX)));
}

#[test]
fn engine_error_is_carried_as_it_is() {
    match DbError::from(sqlx::Error::RowNotFound) {
        DbError::Sql(sqlx::Error::RowNotFound) => {}
        other => panic!("unexpected {:?}", other),
    }
}
