//! What a storage command hands to its callback: results and errors.
use crate::lock::TimeStamp;
use vstd::prelude::*;

verus! {

/// What the holder of a lock left behind on the locked key.
#[derive(Debug, PartialEq, Eq)]
pub struct LockInfo {
    pub primary_lock: Vec<u8>,
    pub lock_version: u64,
    pub key: Vec<u8>,
    pub lock_ttl: u64,
    pub txn_size: u64,
}

impl LockInfo {
    /// The raw key that is locked.
    pub fn get_key(&self) -> (key: &[u8])
        ensures
            key@ == self.key@,
    {
        self.key.as_slice()
    }
}

/// An error of the multi-version layer.
#[derive(Debug, PartialEq, Eq)]
pub enum MvccErrorInner {
    /// Another transaction holds a lock on the key.
    KeyIsLocked(LockInfo),
    /// Another transaction committed a write in the meantime.
    WriteConflict {
        start_ts: TimeStamp,
        conflict_start_ts: TimeStamp,
        conflict_commit_ts: TimeStamp,
        key: Vec<u8>,
        primary: Vec<u8>,
    },
    /// Waiting any longer would close a cycle of waiting transactions.
    Deadlock {
        start_ts: TimeStamp,
        lock_ts: TimeStamp,
        lock_key: Vec<u8>,
        deadlock_key_hash: u64,
    },
    /// Any other error, by its message.
    Other(String),
}

/// A boxed [`MvccErrorInner`].
#[derive(Debug, PartialEq, Eq)]
pub struct MvccError(pub Box<MvccErrorInner>);

impl From<MvccErrorInner> for MvccError {
    fn from(inner: MvccErrorInner) -> (err: MvccError) {
        MvccError(Box::new(inner))
    }
}

impl vstd::std_specs::convert::FromSpecImpl<MvccErrorInner> for MvccError {
    open spec fn obeys_from_spec() -> bool {
        true
    }

    open spec fn from_spec(inner: MvccErrorInner) -> MvccError {
        MvccError(Box::new(inner))
    }
}

/// An error of the transaction layer.
#[derive(Debug, PartialEq, Eq)]
pub enum TxnErrorInner {
    /// The multi-version layer failed.
    Mvcc(MvccError),
    /// Any other error, by its message.
    Other(String),
}

/// A boxed [`TxnErrorInner`].
#[derive(Debug, PartialEq, Eq)]
pub struct TxnError(pub Box<TxnErrorInner>);

impl From<MvccError> for TxnError {
    fn from(err: MvccError) -> (res: TxnError) {
        TxnError(Box::new(TxnErrorInner::Mvcc(err)))
    }
}

impl vstd::std_specs::convert::FromSpecImpl<MvccError> for TxnError {
    open spec fn obeys_from_spec() -> bool {
        true
    }

    open spec fn from_spec(err: MvccError) -> TxnError {
        TxnError(Box::new(TxnErrorInner::Mvcc(err)))
    }
}

/// An error of the storage layer.
#[derive(Debug, PartialEq, Eq)]
pub enum StorageErrorInner {
    /// The transaction layer failed.
    Txn(TxnError),
    /// Any other error, by its message.
    Other(String),
}

/// A boxed [`StorageErrorInner`].
#[derive(Debug, PartialEq, Eq)]
pub struct StorageError(pub Box<StorageErrorInner>);

impl From<TxnError> for StorageError {
    fn from(err: TxnError) -> (res: StorageError) {
        StorageError(Box::new(StorageErrorInner::Txn(err)))
    }
}

impl vstd::std_specs::convert::FromSpecImpl<TxnError> for StorageError {
    open spec fn obeys_from_spec() -> bool {
        true
    }

    open spec fn from_spec(err: TxnError) -> StorageError {
        StorageError(Box::new(StorageErrorInner::Txn(err)))
    }
}

/// The outcome of a command.
#[derive(Debug, PartialEq, Eq)]
pub enum ProcessResult {
    /// It succeeded and has nothing to say.
    Res,
    /// It was made of several parts, each with an outcome of its own.
    MultiRes { results: Vec<Result<(), StorageError>> },
    /// It failed.
    Failed { err: StorageError },
}

/// The multi-version error at the bottom of a storage error, where there is one.
pub open spec fn mvcc_cause(err: StorageError) -> Option<MvccErrorInner> {
    match *err.0 {
        StorageErrorInner::Txn(txn) => match *txn.0 {
            TxnErrorInner::Mvcc(mvcc) => Some(*mvcc.0),
            TxnErrorInner::Other(_) => None,
        },
        StorageErrorInner::Other(_) => None,
    }
}

/// The lock that a result complains of: `Some` where the result has a single
/// part and that part failed because its key is locked.
pub open spec fn locked_by(pr: ProcessResult) -> Option<LockInfo> {
    match pr {
        ProcessResult::MultiRes { results } => if results@.len() == 1 {
            match results@[0] {
                Err(err) => match mvcc_cause(err) {
                    Some(MvccErrorInner::KeyIsLocked(info)) => Some(info),
                    _ => None,
                },
                Ok(_) => None,
            }
        } else {
            None
        },
        _ => None,
    }
}

/// The lock that `pr` complains of.
fn locked_info(pr: &ProcessResult) -> (info: Option<&LockInfo>)
    ensures
        info is Some <==> locked_by(*pr) is Some,
        info matches Some(i) ==> locked_by(*pr) == Some(*i),
{
    match pr {
        ProcessResult::MultiRes { results } => {
            if results.len() != 1 {
                return None;
            }
            match &results[0] {
                Err(StorageError(storage)) => match &**storage {
                    StorageErrorInner::Txn(TxnError(txn)) => match &**txn {
                        TxnErrorInner::Mvcc(MvccError(mvcc)) => match &**mvcc {
                            MvccErrorInner::KeyIsLocked(info) => Some(info),
                            _ => None,
                        },
                        _ => None,
                    },
                    _ => None,
                },
                Ok(_) => None,
            }
        },
        _ => None,
    }
}

/// Whether [`extract_raw_key_from_process_result`] has a key to find in `pr`.
pub fn has_raw_key(pr: &ProcessResult) -> (found: bool)
    ensures
        found == (locked_by(*pr) is Some),
{
    locked_info(pr).is_some()
}

/// The raw key whose lock kept a command from going on.
pub fn extract_raw_key_from_process_result(pr: &ProcessResult) -> (key: &[u8])
    requires
        locked_by(*pr) is Some,
    ensures
        key@ == locked_by(*pr)->Some_0.key@,
{
    locked_info(pr).unwrap().get_key()
}

} // verus!
