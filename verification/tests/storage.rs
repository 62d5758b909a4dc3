use waiter_manager::storage::{
    extract_raw_key_from_process_result, has_raw_key, LockInfo, MvccError, MvccErrorInner,
    ProcessResult, StorageError, StorageErrorInner, TxnError, TxnErrorInner,
};

fn info(key: Vec<u8>) -> LockInfo {
    LockInfo { primary_lock: vec![], lock_version: 0, key, lock_ttl: 0, txn_size: 0 }
}

fn locked(key: &[u8]) -> Result<(), StorageError> {
    Err(StorageError::from(TxnError::from(MvccError::from(
        MvccErrorInner::KeyIsLocked(info(key.to_vec())),
    ))))
}

#[test]
fn test_extract_raw_key_from_process_result() {
    let raw_key = b"foo".to_vec();
    let info = info(raw_key.clone());
    let pr = ProcessResult::MultiRes {
        results: vec![Err(StorageError::from(TxnError::from(MvccError::from(
            MvccErrorInner::KeyIsLocked(info),
        ))))],
    };
    assert_eq!(raw_key, extract_raw_key_from_process_result(&pr));
}

#[test]
fn a_key_is_found_only_in_a_single_locked_part() {
    let one = ProcessResult::MultiRes { results: vec![locked(b"a")] };
    assert!(has_raw_key(&one));
    let others = vec![
        ProcessResult::Res,
        ProcessResult::Failed { err: locked(b"a").unwrap_err() },
        ProcessResult::MultiRes { results: vec![] },
        ProcessResult::MultiRes { results: vec![Ok(())] },
        ProcessResult::MultiRes { results: vec![locked(b"a"), locked(b"b")] },
        ProcessResult::MultiRes {
            results: vec![Err(StorageError(Box::new(StorageErrorInner::Other(
                "closed".to_string(),
            ))))],
        },
        ProcessResult::MultiRes {
            results: vec![Err(StorageError::from(TxnError(Box::new(
                TxnErrorInner::Other("closed".to_string()),
            ))))],
        },
        ProcessResult::MultiRes {
            results: vec![Err(StorageError::from(TxnError::from(MvccError::from(
                MvccErrorInner::Other("closed".to_string()),
            ))))],
        },
    ];
    for pr in others.iter() {
        assert!(!has_raw_key(pr));
    }
}
