use sqlite_access::commands::{close, exec, lookup, on_exit, open, query, ExitStep, Work};
use sqlite_access::codec::Param;
use sqlite_access::error::DbError;
use sqlite_access::value::{Dynamic, Number};
use sqlite_access::{Builder, DbInstances, DbTransaction};

fn name(s: &str) -> String {
    s.to_string()
}

#[test]
fn builder_starts_empty_and_idle() {
    let (instances, transaction): (DbInstances<u32>, DbTransaction<u32>) = Builder::new().build();
    assert_eq!(instances.len(), 0);
    assert!(!transaction.is_active());
}

#[test]
fn default_builder_builds_the_same_state() {
    let (instances, transaction): (DbInstances<u32>, DbTransaction<u32>) = Builder::default().build();
    assert_eq!(instances.len(), 0);
    assert!(!transaction.is_active());
}

#[test]
fn open_echoes_the_name_and_registers_the_pool() {
    let mut instances: DbInstances<u32> = DbInstances::new();
    assert_eq!(open(&mut instances, name("app.db"), 1), "app.db");
    assert_eq!(instances.len(), 1);
    assert!(instances.contains(&name("app.db")));
    assert_eq!(instances.get(&name("app.db")), Some(&1));
    assert_eq!(lookup(&instances, name("app.db")).unwrap(), &1);
}

#[test]
fn reopening_replaces_the_pool() {
    let mut instances: DbInstances<u32> = DbInstances::new();
    open(&mut instances, name("a"), 1);
    open(&mut instances, name("b"), 2);
    open(&mut instances, name("a"), 3);
    assert_eq!(instances.len(), 2);
    assert_eq!(instances.get(&name("a")), Some(&3));
    assert_eq!(instances.get(&name("b")), Some(&2));
    assert_eq!(instances.all(), vec![&3, &2]);
}

#[test]
fn insert_hands_back_the_superseded_pool() {
    let mut instances: DbInstances<&str> = DbInstances::new();
    assert_eq!(instances.insert(name("a"), "first"), None);
    assert_eq!(instances.insert(name("a"), "second"), Some("first"));
    assert_eq!(instances.insert(name("b"), "third"), None);
    assert_eq!(instances.get(&name("a")), Some(&"second"));
}

#[test]
fn lookup_of_an_unopened_name_fails() {
    let mut instances: DbInstances<u32> = DbInstances::new();
    open(&mut instances, name("a"), 1);
    match lookup(&instances, name("b")) {
        Err(DbError::DatabaseNotLoaded(db)) => assert_eq!(db, "b"),
        other => panic!("unexpected {:?}", other),
    }
    assert_eq!(instances.get(&name("b")), None);
    assert!(!instances.contains(&name("A")));
}

#[test]
fn close_of_an_unopened_name_fails() {
    let mut instances: DbInstances<u32> = DbInstances::new();
    match close(&instances, Some(name("app.db"))) {
        Err(DbError::DatabaseNotLoaded(db)) => assert_eq!(db, "app.db"),
        other => panic!("unexpected {:?}", other),
    }
    open(&mut instances, name("a"), 1);
    match close(&instances, Some(name("app.db"))) {
        Err(DbError::DatabaseNotLoaded(db)) => assert_eq!(db, "app.db"),
        other => panic!("unexpected {:?}", other),
    }
}

#[test]
fn close_all_of_nothing_closes_nothing() {
    let instances: DbInstances<u32> = DbInstances::new();
    assert_eq!(close(&instances, None).unwrap(), Vec::<&u32>::new());
}

#[test]
fn close_by_name_chooses_that_pool() {
    let mut instances: DbInstances<u32> = DbInstances::new();
    open(&mut instances, name("a"), 1);
    open(&mut instances, name("b"), 2);
    assert_eq!(close(&instances, Some(name("b"))).unwrap(), vec![&2]);
}

#[test]
fn close_all_chooses_every_pool() {
    let mut instances: DbInstances<u32> = DbInstances::new();
    open(&mut instances, name("a"), 1);
    open(&mut instances, name("b"), 2);
    open(&mut instances, name("c"), 3);
    assert_eq!(close(&instances, None).unwrap(), vec![&1, &2, &3]);
}

#[test]
fn close_keeps_the_entry() {
    let mut instances: DbInstances<u32> = DbInstances::new();
    open(&mut instances, name("a"), 1);
    close(&instances, Some(name("a"))).unwrap();
    close(&instances, Some(name("a"))).unwrap();
    assert_eq!(instances.len(), 1);
    assert_eq!(lookup(&instances, name("a")).unwrap(), &1);
}

#[test]
fn exec_routes_to_the_pool_with_bound_arguments() {
    let mut instances: DbInstances<u32> = DbInstances::new();
    open(&mut instances, name("a"), 1);
    let job = exec(&instances, name("a"), name("INSERT INTO t(v) VALUES (?)"), vec![Dynamic::Text("hello".to_string())]).unwrap();
    assert_eq!(job.sql, "INSERT INTO t(v) VALUES (?)");
    assert_eq!(job.work, Work::Execute);
    assert_eq!(job.pool, &1);
    assert_eq!(job.params, vec![Param::Text("hello".to_string())]);
}

#[test]
fn query_routes_to_the_pool_with_bound_arguments() {
    let mut instances: DbInstances<u32> = DbInstances::new();
    open(&mut instances, name("a"), 1);
    open(&mut instances, name("b"), 2);
    let job = query(&instances, name("b"), name("SELECT ?, ?"), vec![Dynamic::Number(Number::PosInt(4)), Dynamic::Null]).unwrap();
    assert_eq!(job.sql, "SELECT ?, ?");
    assert_eq!(job.work, Work::Fetch);
    assert_eq!(job.pool, &2);
    assert_eq!(job.params, vec![Param::Real(4.0f64.to_bits()), Param::Null]);
}

#[test]
fn exec_and_query_on_an_unopened_name_fail() {
    let instances: DbInstances<u32> = DbInstances::new();
    match exec(&instances, name("a"), name("SELECT 1"), vec![]) {
        Err(DbError::DatabaseNotLoaded(db)) => assert_eq!(db, "a"),
        _ => panic!("exec was routed"),
    }
    match query(&instances, name("a"), name("SELECT 1"), vec![]) {
        Err(DbError::DatabaseNotLoaded(db)) => assert_eq!(db, "a"),
        _ => panic!("query was routed"),
    }
}

/// The steps of an exit, each as a text.
fn told(steps: Vec<ExitStep<'_, u32, &str>>) -> Vec<String> {
    steps
        .into_iter()
        .map(|step| match step {
            ExitStep::Rollback(tx) => format!("rollback {}", tx),
            ExitStep::Close(pool) => format!("close {}", pool),
        })
        .collect()
}

#[test]
fn exit_rolls_back_first_and_then_closes_every_pool() {
    let mut instances: DbInstances<u32> = DbInstances::new();
    let mut transaction: DbTransaction<&str> = DbTransaction::new();
    open(&mut instances, name("a"), 1);
    open(&mut instances, name("b"), 2);
    open(&mut instances, name("c"), 3);
    transaction.begin("tx").unwrap();
    let steps = on_exit(&instances, &mut transaction);
    assert_eq!(told(steps), vec!["rollback tx", "close 1", "close 2", "close 3"]);
    assert!(!transaction.is_active());
}

#[test]
fn exit_with_an_idle_slot_rolls_nothing_back() {
    let mut instances: DbInstances<u32> = DbInstances::new();
    let mut transaction: DbTransaction<&str> = DbTransaction::new();
    open(&mut instances, name("a"), 1);
    open(&mut instances, name("b"), 2);
    assert_eq!(told(on_exit(&instances, &mut transaction)), vec!["close 1", "close 2"]);
    assert!(!transaction.is_active());
}

#[test]
fn exit_of_an_empty_layer_has_no_steps() {
    let instances: DbInstances<u32> = DbInstances::new();
    let mut transaction: DbTransaction<&str> = DbTransaction::new();
    assert_eq!(told(on_exit(&instances, &mut transaction)), Vec::<String>::new());
    transaction.begin("tx").unwrap();
    assert_eq!(told(on_exit(&instances, &mut transaction)), vec!["rollback tx"]);
}
