//! The commands of the layer. Each one decides, from the registry, the
//! transaction slot and the caller's input, what is to be done on the
//! engine; the caller does it.

use crate::codec::{bind_args, bind_of, Param};
use crate::error::DbError;
use crate::instances::DbInstances;
use crate::transaction::{slot_accepts, slot_after, DbTransaction, Finish, SlotCall};
use crate::value::Dynamic;
use vstd::prelude::*;

verus! {

/// What a statement is run for.
#[derive(Clone, Copy, Debug, PartialEq, Eq, Structural)]
pub enum Work {
    /// For its effect: the count of affected rows and the last inserted id.
    Execute,
    /// For its rows.
    Fetch,
}

/// A statement to be run on any connection of a pool.
pub struct Job<'a, P> {
    pub work: Work,
    pub pool: &'a P,
    pub sql: String,
    pub params: Vec<Param>,
}

/// A statement to be run on the connection of the open transaction.
pub struct TxJob<'a, P, T> {
    pub work: Work,
    pub pool: &'a P,
    pub tx: &'a mut T,
    pub sql: String,
    pub params: Vec<Param>,
}

/// One step of what is left to do when the process exits.
pub enum ExitStep<'a, P, T> {
    /// Roll this transaction back; a failure is ignored.
    Rollback(T),
    /// Close this pool.
    Close(&'a P),
}

/// The row id that the engine gave to the last inserted row.
#[derive(Clone, Copy, Debug, PartialEq, Eq, Structural)]
pub enum LastInsertId {
    Sqlite(i64),
}

/// True where `params` are `values` bound one by one.
pub open spec fn binds(values: Seq<Dynamic>, params: Seq<Param>) -> bool {
    &&& params.len() == values.len()
    &&& forall|i: int| 0 <= i < values.len() ==> (#[trigger] params[i])@ == bind_of(values[i]@)
}

/// True where `targets` are the pools of `listing`, one by one.
pub open spec fn lists<P>(targets: Seq<&P>, listing: Seq<P>) -> bool {
    &&& targets.len() == listing.len()
    &&& forall|i: int| 0 <= i < listing.len() ==> *(#[trigger] targets[i]) == listing[i]
}

/// The steps of an exit in their order: first the rollback of the
/// transaction that was held, where one was, then the closing of every pool
/// of the listing, one by one.
pub open spec fn exit_steps<'a, P, T>(held: Option<T>, listing: Seq<P>) -> Seq<
    ExitStep<'a, P, T>,
> {
    let rollback = match held {
        Some(tx) => seq![ExitStep::<'a, P, T>::Rollback(tx)],
        None => seq![],
    };
    rollback + Seq::new(listing.len(), |i: int| ExitStep::<'a, P, T>::Close(&listing[i]))
}

/// Finds the pool of a database, or fails with the name that is not
/// loaded.
pub fn lookup<P>(instances: &DbInstances<P>, db: String) -> (r: Result<&P, DbError>)
    ensures
        match r {
            Ok(pool) => instances@.contains_key(db@) && *pool == instances@[db@],
            Err(e) => !instances@.contains_key(db@) && e.not_loaded(db@),
        },
{
    match instances.get(&db) {
        Some(pool) => Ok(pool),
        None => Err(DbError::DatabaseNotLoaded(db)),
    }
}

/// Registers a newly connected pool under its name and echoes the name. A
/// pool that the name stood for is superseded without being closed; the
/// name keeps its place in the listing, and a new name is listed last.
pub fn open<P>(instances: &mut DbInstances<P>, db: String, pool: P) -> (name: String)
    ensures
        name@ == db@,
        final(instances)@ == old(instances)@.insert(db@, pool),
        final(instances).names() == if old(instances)@.contains_key(db@) {
            old(instances).names()
        } else {
            old(instances).names().push(db@)
        },
{
    let name = db.clone();
    let _ = instances.insert(db, pool);
    name
}

/// Chooses the pools to close: the one of the given name, or all of them
/// where no name is given. Closing leaves the registry as it is.
pub fn close<P>(instances: &DbInstances<P>, db: Option<String>) -> (r: Result<Vec<&P>, DbError>)
    ensures
        match db {
            Some(name) => match r {
                Ok(targets) => instances@.contains_key(name@) && targets@.len() == 1
                    && *targets@[0] == instances@[name@],
                Err(e) => !instances@.contains_key(name@) && e.not_loaded(name@),
            },
            None => r matches Ok(targets) && lists(targets@, instances.pools()) && targets@.len()
                == instances@.dom().len(),
        },
{
    match db {
        Some(name) => {
            let pool = lookup(instances, name)?;
            let mut targets: Vec<&P> = Vec::new();
            targets.push(pool);
            Ok(targets)
        },
        None => Ok(instances.all()),
    }
}

/// Routes a statement that is run for its effect to the pool of a
/// database.
pub fn exec<P>(instances: &DbInstances<P>, db: String, sql: String, values: Vec<Dynamic>) -> (r:
    Result<Job<'_, P>, DbError>)
    ensures
        match r {
            Ok(job) => {
                &&& instances@.contains_key(db@)
                &&& *job.pool == instances@[db@]
                &&& job.work == Work::Execute
                &&& job.sql@ == sql@
                &&& binds(values@, job.params@)
            },
            Err(e) => !instances@.contains_key(db@) && e.not_loaded(db@),
        },
{
    let pool = lookup(instances, db)?;
    Ok(Job { work: Work::Execute, pool, sql, params: bind_args(values) })
}

/// Routes a statement that is run for its rows to the pool of a database.
pub fn query<P>(instances: &DbInstances<P>, db: String, sql: String, values: Vec<Dynamic>) -> (r:
    Result<Job<'_, P>, DbError>)
    ensures
        match r {
            Ok(job) => {
                &&& instances@.contains_key(db@)
                &&& *job.pool == instances@[db@]
                &&& job.work == Work::Fetch
                &&& job.sql@ == sql@
                &&& binds(values@, job.params@)
            },
            Err(e) => !instances@.contains_key(db@) && e.not_loaded(db@),
        },
{
    let pool = lookup(instances, db)?;
    Ok(Job { work: Work::Fetch, pool, sql, params: bind_args(values) })
}

/// The reply to a statement that was run for its effect.
pub fn executed(rows_affected: u64, last_insert_rowid: i64) -> (reply: (u64, LastInsertId))
    ensures
        reply == (rows_affected, LastInsertId::Sqlite(last_insert_rowid)),
{
    (rows_affected, LastInsertId::Sqlite(last_insert_rowid))
}

/// Decides whether a transaction may be begun on a database, and on which
/// pool. An active slot refuses every begin, whatever the name; on an idle
/// slot the name is looked up.
pub fn tx_begin<'a, P, T>(
    instances: &'a DbInstances<P>,
    transaction: &DbTransaction<T>,
    db: String,
) -> (r: Result<&'a P, DbError>)
    ensures
        r is Ok <==> slot_accepts(transaction.active(), SlotCall::Begin) && instances@.contains_key(
            db@,
        ),
        match r {
            Ok(pool) => *pool == instances@[db@],
            Err(e) => if transaction.active() {
                e is TooManyOpenTransactions
            } else {
                e.not_loaded(db@)
            },
        },
{
    if transaction.is_active() {
        Err(DbError::TooManyOpenTransactions)
    } else {
        lookup(instances, db)
    }
}

/// Routes a statement that is run for its effect to the open transaction. An
/// idle slot refuses every such statement, whatever the name; with a
/// transaction open the name is looked up. The transaction stays in the
/// slot.
pub fn tx_exec<'a, P, T>(
    instances: &'a DbInstances<P>,
    db: String,
    transaction: &'a mut DbTransaction<T>,
    sql: String,
    values: Vec<Dynamic>,
) -> (r: Result<TxJob<'a, P, T>, DbError>)
    ensures
        r is Ok <==> old(transaction).active() && instances@.contains_key(db@),
        match r {
            Ok(job) => {
                &&& *job.pool == instances@[db@]
                &&& job.work == Work::Execute
                &&& job.sql@ == sql@
                &&& binds(values@, job.params@)
                &&& old(transaction)@ == Some(*job.tx)
                &&& final(transaction)@ == Some(*final(job.tx))
            },
            Err(e) => {
                &&& final(transaction)@ == old(transaction)@
                &&& if old(transaction).active() {
                    e.not_loaded(db@)
                } else {
                    e is NoRunningTransaction
                }
            },
        },
{
    let tx = transaction.current()?;
    let pool = lookup(instances, db)?;
    Ok(TxJob { work: Work::Execute, pool, tx, sql, params: bind_args(values) })
}

/// Routes a statement that is run for its rows to the open transaction. An
/// idle slot refuses every such statement, whatever the name; with a
/// transaction open the name is looked up. The transaction stays in the
/// slot.
pub fn tx_query<'a, P, T>(
    instances: &'a DbInstances<P>,
    db: String,
    transaction: &'a mut DbTransaction<T>,
    sql: String,
    values: Vec<Dynamic>,
) -> (r: Result<TxJob<'a, P, T>, DbError>)
    ensures
        r is Ok <==> old(transaction).active() && instances@.contains_key(db@),
        match r {
            Ok(job) => {
                &&& *job.pool == instances@[db@]
                &&& job.work == Work::Fetch
                &&& job.sql@ == sql@
                &&& binds(values@, job.params@)
                &&& old(transaction)@ == Some(*job.tx)
                &&& final(transaction)@ == Some(*final(job.tx))
            },
            Err(e) => {
                &&& final(transaction)@ == old(transaction)@
                &&& if old(transaction).active() {
                    e.not_loaded(db@)
                } else {
                    e is NoRunningTransaction
                }
            },
        },
{
    let tx = transaction.current()?;
    let pool = lookup(instances, db)?;
    Ok(TxJob { work: Work::Fetch, pool, tx, sql, params: bind_args(values) })
}

/// Takes the open transaction out of the slot to be committed.
pub fn tx_commit<T>(transaction: &mut DbTransaction<T>) -> (r: Result<Finish<T>, DbError>)
    ensures
        r is Ok <==> slot_accepts(old(transaction).active(), SlotCall::Commit),
        final(transaction).active() == slot_after(old(transaction).active(), SlotCall::Commit),
        match r {
            Ok(finish) => old(transaction)@ matches Some(tx) && finish == Finish::Commit(tx),
            Err(e) => old(transaction)@ is None && e is NoRunningTransaction,
        },
{
    match transaction.take() {
        Ok(tx) => Ok(Finish::Commit(tx)),
        Err(e) => Err(e),
    }
}

/// Takes the open transaction out of the slot to be rolled back.
pub fn tx_rollback<T>(transaction: &mut DbTransaction<T>) -> (r: Result<Finish<T>, DbError>)
    ensures
        r is Ok <==> slot_accepts(old(transaction).active(), SlotCall::Rollback),
        final(transaction).active() == slot_after(old(transaction).active(), SlotCall::Rollback),
        match r {
            Ok(finish) => old(transaction)@ matches Some(tx) && finish == Finish::Rollback(tx),
            Err(e) => old(transaction)@ is None && e is NoRunningTransaction,
        },
{
    match transaction.take() {
        Ok(tx) => Ok(Finish::Rollback(tx)),
        Err(e) => Err(e),
    }
}

/// At the exit of the process: the steps to take, in their order. The open
/// transaction leaves the slot and is rolled back first; then every pool is
/// closed, in the order of the listing. With an idle slot no rollback is
/// among the steps.
pub fn on_exit<'a, P, T>(instances: &'a DbInstances<P>, transaction: &mut DbTransaction<T>) -> (steps:
    Vec<ExitStep<'a, P, T>>)
    ensures
        final(transaction).active() == slot_after(old(transaction).active(), SlotCall::Exit),
        steps@ == exit_steps(old(transaction)@, instances.pools()),
        steps@.len() == (if old(transaction).active() {
            1int
        } else {
            0
        }) + instances@.dom().len(),
{
    let mut steps: Vec<ExitStep<'a, P, T>> = Vec::new();
    let held = transaction.drain();
    let ghost first: int = if held is Some {
        1
    } else {
        0
    };
    if let Some(tx) = held {
        steps.push(ExitStep::Rollback(tx));
    }
    let pools = instances.all();
    let mut i: usize = 0;
    while i < pools.len()
        invariant
            i <= pools@.len(),
            steps@.len() == first + i,
            first == 0 || first == 1,
            forall|k: int| 0 <= k < first ==> steps@[k] == ExitStep::<'a, P, T>::Rollback(held->0),
            forall|k: int|
                first <= k < first + i ==> steps@[k] == ExitStep::<'a, P, T>::Close(
                    pools@[k - first],
                ),
        decreases pools@.len() - i,
    {
        steps.push(ExitStep::Close(pools[i]));
        i += 1;
    }
    assert(steps@ =~= exit_steps(held, instances.pools()));
    steps
}

} // verus!
