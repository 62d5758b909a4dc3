//! What the waiter manager is asked to do.
use crate::decimal::{decimal, push_decimal};
use crate::lock::{Lock, TimeStamp};
use crate::storage::ProcessResult;
use vstd::prelude::*;
use vstd::string::StringExecFns;

verus! {

/// A task for the waiter manager. `C` is the callback of a command that waits,
/// `D` that of someone who wants to see the wait-for graph.
#[derive(PartialEq, Eq)]
pub enum Task<C, D> {
    /// Let a transaction wait for a lock.
    WaitFor {
        /// The transaction that waits.
        start_ts: TimeStamp,
        cb: C,
        pr: ProcessResult,
        lock: Lock,
        /// For how many milliseconds at most; nought for as long as is allowed.
        timeout: u64,
    },
    /// Wake up those who wait for a lock that has gone.
    WakeUp {
        /// The transaction that held the lock.
        lock_ts: TimeStamp,
        /// The hashes of the keys that it held.
        hashes: Vec<u64>,
        /// Its commit timestamp.
        commit_ts: TimeStamp,
    },
    /// Show the wait-for graph.
    Dump { cb: D },
    /// Give up a wait that closes a cycle.
    Deadlock {
        start_ts: TimeStamp,
        lock: Lock,
        deadlock_key_hash: u64,
    },
}

/// What is counted of the tasks that are run.
#[derive(Clone, Copy, Debug, PartialEq, Eq, Structural)]
pub enum Counter {
    /// Transactions that were let wait.
    WaitFor,
    /// Wake-ups.
    WakeUp,
    /// Views of the wait-for graph.
    Dump,
}

/// The counter that running `task` raises. Deadlocks are not counted.
pub fn counter_of<C, D>(task: &Task<C, D>) -> (counter: Option<Counter>)
    ensures
        counter == match *task {
            Task::WaitFor { .. } => Some(Counter::WaitFor),
            Task::WakeUp { .. } => Some(Counter::WakeUp),
            Task::Dump { .. } => Some(Counter::Dump),
            Task::Deadlock { .. } => None,
        },
{
    match task {
        Task::WaitFor { .. } => Some(Counter::WaitFor),
        Task::WakeUp { .. } => Some(Counter::WakeUp),
        Task::Dump { .. } => Some(Counter::Dump),
        Task::Deadlock { .. } => None,
    }
}

/// What a task looks like in a log.
pub open spec fn display_of<C, D>(task: Task<C, D>) -> Seq<char> {
    match task {
        Task::WaitFor { start_ts, cb, pr, lock, timeout } => "txn:"@ + decimal(start_ts.0 as nat)
            + " waiting for "@ + decimal(lock.ts.0 as nat) + ":"@ + decimal(lock.hash as nat),
        Task::WakeUp { lock_ts, hashes, commit_ts } => "waking up txns waiting for "@ + decimal(
            lock_ts.0 as nat,
        ),
        Task::Dump { cb } => "dump"@,
        Task::Deadlock { start_ts, lock, deadlock_key_hash } => "txn:"@ + decimal(
            start_ts.0 as nat,
        ) + " deadlock"@,
    }
}

impl<C, D> Task<C, D> {
    /// What the task looks like in a log.
    pub fn display(&self) -> (text: String)
        ensures
            text@ == display_of(*self),
    {
        let mut text = String::new();
        match self {
            Task::WaitFor { start_ts, lock, .. } => {
                text.append("txn:");
                push_decimal(&mut text, start_ts.into_inner());
                text.append(" waiting for ");
                push_decimal(&mut text, lock.ts.into_inner());
                text.append(":");
                push_decimal(&mut text, lock.hash);
            },
            Task::WakeUp { lock_ts, .. } => {
                text.append("waking up txns waiting for ");
                push_decimal(&mut text, lock_ts.into_inner());
            },
            Task::Dump { .. } => {
                text.append("dump");
            },
            Task::Deadlock { start_ts, .. } => {
                text.append("txn:");
                push_decimal(&mut text, start_ts.into_inner());
                text.append(" deadlock");
            },
        }
        assert(text@ =~= display_of(*self));
        text
    }
}

} // verus!
