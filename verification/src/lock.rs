//! Timestamps and locks.
use vstd::prelude::*;

verus! {

/// A point in the order of transactions.
#[derive(Clone, Copy, Debug, PartialEq, Eq, PartialOrd, Ord, Hash, Structural)]
pub struct TimeStamp(pub u64);

impl TimeStamp {
    /// The timestamp before every other one.
    pub fn zero() -> (ts: TimeStamp)
        ensures
            ts == TimeStamp(0),
    {
        TimeStamp(0)
    }

    /// The number behind the timestamp.
    pub fn into_inner(self) -> (n: u64)
        ensures
            n == self.0,
    {
        self.0
    }
}

impl From<u64> for TimeStamp {
    fn from(n: u64) -> (ts: TimeStamp) {
        TimeStamp(n)
    }
}

impl vstd::std_specs::convert::FromSpecImpl<u64> for TimeStamp {
    open spec fn obeys_from_spec() -> bool {
        true
    }

    open spec fn from_spec(n: u64) -> TimeStamp {
        TimeStamp(n)
    }
}

/// A lock as a waiter sees it: the transaction that holds it, by its start
/// timestamp, and the hash of the locked key.
#[derive(Clone, Copy, Debug, PartialEq, Eq, Structural)]
pub struct Lock {
    pub ts: TimeStamp,
    pub hash: u64,
}

} // verus!
