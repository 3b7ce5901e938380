//! The transaction slot and its state machine.

use crate::error::DbError;
use vstd::prelude::*;

verus! {

/// The single transaction slot of the process: idle, or active with the one
/// open transaction in it.
pub struct DbTransaction<T> {
    held: Option<T>,
}

impl<T> View for DbTransaction<T> {
    type V = Option<T>;

    /// The transaction in the slot, if one is open.
    closed spec fn view(&self) -> Option<T> {
        self.held
    }
}

/// What is owed to a transaction that has left the slot.
pub enum Finish<T> {
    Commit(T),
    Rollback(T),
}

/// A call on the slot, as the state machine sees it.
pub enum SlotCall {
    Begin,
    Commit,
    Rollback,
    Exit,
}

/// Whether the slot, active or idle, accepts a call. A refused `Begin` is
/// answered with `TooManyOpenTransactions`, a refused `Commit` or `Rollback`
/// with `NoRunningTransaction`.
pub open spec fn slot_accepts(active: bool, call: SlotCall) -> bool {
    match call {
        SlotCall::Begin => !active,
        SlotCall::Commit => active,
        SlotCall::Rollback => active,
        SlotCall::Exit => true,
    }
}

/// Whether the slot is active after a call.
pub open spec fn slot_after(active: bool, call: SlotCall) -> bool {
    match call {
        SlotCall::Begin => true,
        SlotCall::Commit => false,
        SlotCall::Rollback => false,
        SlotCall::Exit => false,
    }
}

/// Whether the slot is active after a sequence of calls.
pub open spec fn slot_run(start: bool, calls: Seq<SlotCall>) -> bool
    decreases calls.len(),
{
    if calls.len() == 0 {
        start
    } else {
        slot_after(slot_run(start, calls.drop_last()), calls.last())
    }
}

/// Whether the call at a position of a sequence is accepted.
pub open spec fn accepted_at(start: bool, calls: Seq<SlotCall>, at: int) -> bool {
    slot_accepts(slot_run(start, calls.take(at)), calls[at])
}

/// Whether the call at a position of a sequence ends a transaction: the
/// slot is active, and the call is a commit, a rollback or the exit of the
/// process.
pub open spec fn ends_at(start: bool, calls: Seq<SlotCall>, at: int) -> bool {
    slot_run(start, calls.take(at)) && calls[at] !is Begin
}

/// A call that finds the slot idle after an earlier `Begin` comes after a
/// call that ended a transaction.
proof fn lemma_idle_after_end(start: bool, calls: Seq<SlotCall>, i: int, j: int) -> (k: int)
    requires
        0 <= i < j <= calls.len(),
        calls[i] is Begin,
        !slot_run(start, calls.take(j)),
    ensures
        i < k < j,
        ends_at(start, calls, k),
    decreases j - i,
{
    let upto = calls.take(j);
    assert(upto.drop_last() =~= calls.take(j - 1));
    assert(upto.last() == calls[j - 1]);
    if slot_run(start, calls.take(j - 1)) {
        j - 1
    } else {
        lemma_idle_after_end(start, calls, i, j - 1)
    }
}

/// At most one transaction at a time: in any sequence of calls, between a
/// `Begin` and a later `Begin` that is accepted lies a call that ends a
/// transaction. An ending call is itself accepted.
pub proof fn lemma_one_transaction_at_a_time(start: bool, calls: Seq<SlotCall>, i: int, j: int)
    requires
        0 <= i < j < calls.len(),
        calls[i] is Begin,
        calls[j] is Begin,
        accepted_at(start, calls, j),
    ensures
        exists|k: int| i < k < j && ends_at(start, calls, k) && accepted_at(start, calls, k),
{
    let k = lemma_idle_after_end(start, calls, i, j);
    assert(i < k < j && ends_at(start, calls, k) && accepted_at(start, calls, k));
}

impl<T> DbTransaction<T> {
    /// True while a transaction is open.
    pub open spec fn active(&self) -> bool {
        self@ is Some
    }

    /// An idle slot.
    pub fn new() -> (slot: Self)
        ensures
            slot@ is None,
    {
        DbTransaction { held: None }
    }

    /// Tells whether a transaction is open.
    pub fn is_active(&self) -> (r: bool)
        ensures
            r == self.active(),
    {
        self.held.is_some()
    }

    /// Puts a newly opened transaction into the slot. An active slot keeps
    /// the transaction it has and refuses the new one, which is dropped.
    pub fn begin(&mut self, tx: T) -> (r: Result<(), DbError>)
        ensures
            r is Ok <==> slot_accepts(old(self).active(), SlotCall::Begin),
            r matches Err(e) ==> e is TooManyOpenTransactions,
            final(self).active() == slot_after(old(self).active(), SlotCall::Begin),
            final(self)@ == (if old(self)@ is None {
                Some(tx)
            } else {
                old(self)@
            }),
    {
        if self.held.is_some() {
            Err(DbError::TooManyOpenTransactions)
        } else {
            self.held = Some(tx);
            Ok(())
        }
    }

    /// The open transaction, for a statement to run in it. Whatever the
    /// statement does to the transaction, it stays in the slot.
    pub fn current(&mut self) -> (r: Result<&mut T, DbError>)
        ensures
            match r {
                Ok(tx) => old(self)@ == Some(*tx) && final(self)@ == Some(*final(tx)),
                Err(e) => e is NoRunningTransaction && old(self)@ is None && final(self)@ is None,
            },
    {
        match self.held.as_mut() {
            Some(tx) => Ok(tx),
            None => Err(DbError::NoRunningTransaction),
        }
    }

    /// Takes the open transaction out of the slot, which is idle afterwards.
    pub fn take(&mut self) -> (r: Result<T, DbError>)
        ensures
            r is Ok <==> old(self).active(),
            match r {
                Ok(tx) => old(self)@ == Some(tx),
                Err(e) => e is NoRunningTransaction,
            },
            final(self)@ is None,
    {
        match self.held.take() {
            Some(tx) => Ok(tx),
            None => Err(DbError::NoRunningTransaction),
        }
    }

    /// Empties the slot at the exit of the process and hands out what it
    /// held.
    pub fn drain(&mut self) -> (r: Option<T>)
        ensures
            r == old(self)@,
            final(self).active() == slot_after(old(self).active(), SlotCall::Exit),
    {
        self.held.take()
    }
}

impl<T> Default for DbTransaction<T> {
    fn default() -> (slot: Self)
        ensures
            slot@ is None,
    {
        DbTransaction::new()
    }
}

} // verus!
