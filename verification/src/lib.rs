//! Waiting for, and waking up from, pessimistic locks.
//!
//! A transaction that runs into a lock of another transaction is parked in a
//! [`WaitTable`](wait_table::WaitTable) until the lock goes away, a deadlock is
//! reported or its time is up. The
//! [`WaiterManager`](manager::WaiterManager) takes the decisions; timers,
//! callbacks and messages are handed back to the caller as
//! [`Action`](manager::Action)s.

pub mod decimal;
pub mod laws;
mod lemmas;
pub mod lock;
pub mod manager;
pub mod model;
pub mod outcomes;
pub mod scheduler;
mod sorting;
pub mod storage;
pub mod task;
pub mod wait_table;
pub mod waiter;
pub mod waiter_count;
