//! A name-addressed access layer over SQLite: a registry of open databases,
//! a single process-wide transaction slot, and the codec between dynamic
//! values and the engine's column types.
//!
//! The layer decides and the caller acts: every command is a function from
//! the state and the caller's input to the new state and what is to be done
//! on the engine.

use vstd::prelude::*;

pub mod codec;
pub mod commands;
pub mod double;
pub mod error;
pub mod instances;
pub mod options;
pub mod row;
pub mod transaction;
pub mod value;

pub use crate::commands::LastInsertId;
pub use crate::error::DbError;
pub use crate::instances::DbInstances;
pub use crate::options::SqliteOptions;
pub use crate::transaction::DbTransaction;

verus! {

/// Builds the state that the layer works on.
pub struct Builder {}

impl Builder {
    /// A builder.
    pub fn new() -> (builder: Self)
        ensures
            builder == (Builder {  }),
    {
        Builder::default()
    }

    /// The state at the start of the process: no database is open and the
    /// transaction slot is idle.
    pub fn build<P, T>(self) -> (state: (DbInstances<P>, DbTransaction<T>))
        ensures
            state.0@ == Map::<Seq<char>, P>::empty(),
            state.1@ is None,
    {
        (DbInstances::new(), DbTransaction::new())
    }
}

impl Default for Builder {
    fn default() -> (builder: Self)
        ensures
            builder == (Builder {  }),
    {
        Builder {  }
    }
}

} // verus!
