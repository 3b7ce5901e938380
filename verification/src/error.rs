//! The errors of the layer.

use vstd::prelude::*;

verus! {

/// The engine's own error. The layer carries it through and never looks
/// inside.
#[verifier::external_type_specification]
#[verifier::external_body]
pub struct ExSqlxError(sqlx::Error);

/// Every way an operation of this layer can fail.
#[derive(Debug)]
pub enum DbError {
    /// An error of the engine, handed on as it came.
    Sql(sqlx::Error),
    /// The name refers to no database of the registry.
    DatabaseNotLoaded(String),
    /// A transaction was to be begun while another one is open.
    TooManyOpenTransactions,
    /// A transaction was to be used or ended while none is open.
    NoRunningTransaction,
    /// A column holds a type that no dynamic value stands for.
    UnsupportedColumnType(String),
}

impl From<sqlx::Error> for DbError {
    /// An error of the engine, carried as it is.
    fn from(e: sqlx::Error) -> (r: DbError) {
        DbError::Sql(e)
    }
}

impl vstd::std_specs::convert::FromSpecImpl<sqlx::Error> for DbError {
    open spec fn obeys_from_spec() -> bool {
        true
    }

    open spec fn from_spec(e: sqlx::Error) -> DbError {
        DbError::Sql(e)
    }
}

impl DbError {
    /// True for the error that the database `db` is not loaded.
    pub open spec fn not_loaded(&self, db: Seq<char>) -> bool {
        self matches DbError::DatabaseNotLoaded(name) && name@ == db
    }

    /// True for the error that a column is of the unsupported type `ty`.
    pub open spec fn unsupported(&self, ty: Seq<char>) -> bool {
        self matches DbError::UnsupportedColumnType(name) && name@ == ty
    }
}

} // verus!
