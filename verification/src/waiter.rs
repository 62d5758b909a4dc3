//! Waiters, and what is said to and about them.
use crate::lock::{Lock, TimeStamp};
use crate::storage::ProcessResult;
use vstd::prelude::*;

verus! {

/// A transaction that waits for a lock. `C` is the callback of the command that
/// is held up; it is carried along and never looked into.
#[derive(Debug, PartialEq, Eq)]
pub struct Waiter<C> {
    /// The transaction that waits.
    pub start_ts: TimeStamp,
    /// What to call once there is an answer.
    pub cb: C,
    /// The answer if nothing but time goes by.
    pub pr: ProcessResult,
    /// The lock it waits for.
    pub lock: Lock,
}

/// A callback together with the result to call it with.
#[derive(Debug, PartialEq, Eq)]
pub struct Answer<C> {
    pub cb: C,
    pub pr: ProcessResult,
}

/// One edge of the wait-for graph: `txn` waits for `wait_for_txn` on a key.
#[derive(Clone, Copy, Debug, PartialEq, Eq, Structural)]
pub struct WaitForEntry {
    pub txn: u64,
    pub wait_for_txn: u64,
    pub key_hash: u64,
}

impl WaitForEntry {
    /// The transaction that waits.
    pub fn get_txn(&self) -> (txn: u64)
        ensures
            txn == self.txn,
    {
        self.txn
    }

    /// The transaction that is waited for.
    pub fn get_wait_for_txn(&self) -> (txn: u64)
        ensures
            txn == self.wait_for_txn,
    {
        self.wait_for_txn
    }

    /// The hash of the key that is locked.
    pub fn get_key_hash(&self) -> (hash: u64)
        ensures
            hash == self.key_hash,
    {
        self.key_hash
    }
}

/// The edge that `waiter` adds to the wait-for graph.
pub open spec fn edge_of<C>(waiter: Waiter<C>) -> WaitForEntry {
    WaitForEntry {
        txn: waiter.start_ts.0,
        wait_for_txn: waiter.lock.ts.0,
        key_hash: waiter.lock.hash,
    }
}

} // verus!
