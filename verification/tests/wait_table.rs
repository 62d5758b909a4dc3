use std::sync::atomic::{AtomicUsize, Ordering};
use std::sync::Arc;
use waiter_manager::lock::{Lock, TimeStamp};
use waiter_manager::storage::ProcessResult;
use waiter_manager::wait_table::WaitTable;
use waiter_manager::waiter::Waiter;

fn dummy_waiter(start_ts: TimeStamp, lock_ts: TimeStamp, hash: u64) -> Waiter<()> {
    Waiter {
        start_ts,
        cb: (),
        pr: ProcessResult::Res,
        lock: Lock { ts: lock_ts, hash },
    }
}

/// A waiter whose callback is a number, to tell waiters apart.
fn numbered_waiter(number: u32, start_ts: u64, lock_ts: u64, hash: u64) -> Waiter<u32> {
    Waiter {
        start_ts: start_ts.into(),
        cb: number,
        pr: ProcessResult::Res,
        lock: Lock { ts: lock_ts.into(), hash },
    }
}

fn numbers(waiters: &Vec<Waiter<u32>>) -> Vec<u32> {
    waiters.iter().map(|w| w.cb).collect()
}

/// Pseudo-random keys of `len` bytes each.
fn generate_keys(len: usize, n: usize) -> Vec<Vec<u8>> {
    let mut state: u64 = 0x9e37_79b9_7f4a_7c15;
    let mut keys = vec![];
    for _ in 0..n {
        let mut key = vec![];
        for _ in 0..len {
            state ^= state << 13;
            state ^= state >> 7;
            state ^= state << 17;
            key.push((state >> 32) as u8);
        }
        keys.push(key);
    }
    keys
}

/// The 64-bit FNV-1a hash of a key.
fn gen_hash(key: &[u8]) -> u64 {
    let mut hash: u64 = 0xcbf2_9ce4_8422_2325;
    for byte in key {
        hash ^= u64::from(*byte);
        hash = hash.wrapping_mul(0x0000_0100_0000_01b3);
    }
    hash
}

#[test]
fn test_wait_table_add_and_remove() {
    let mut wait_table = WaitTable::new(Arc::new(AtomicUsize::new(0)));
    for i in 0..10 {
        let n = i as u64;
        wait_table.add_waiter(n.into(), dummy_waiter(TimeStamp::zero(), n.into(), n));
    }
    assert_eq!(10, wait_table.size());
    for i in (0..10).rev() {
        let n = i as u64;
        assert!(wait_table
            .remove_waiter(TimeStamp::zero(), Lock { ts: n.into(), hash: n })
            .is_some());
    }
    assert_eq!(0, wait_table.size());
    assert!(wait_table
        .remove_waiter(TimeStamp::zero(), Lock { ts: TimeStamp::zero(), hash: 0 })
        .is_none());
}

#[test]
fn test_wait_table_take_ready_waiters() {
    let mut wait_table = WaitTable::new(Arc::new(AtomicUsize::new(0)));
    let ts = 100.into();
    let mut hashes: Vec<u64> = generate_keys(64, 10)
        .into_iter()
        .map(|key| gen_hash(&key))
        .collect();

    assert!(wait_table.take_ready_waiters(ts, hashes.clone()).is_empty());

    for hash in hashes.iter() {
        wait_table.add_waiter(ts, dummy_waiter(TimeStamp::zero(), ts, *hash));
    }
    hashes.sort();

    let not_ready = hashes.split_off(hashes.len() / 2);
    let ready_waiters = wait_table.take_ready_waiters(ts, hashes.clone());
    assert_eq!(hashes.len(), ready_waiters.len());
    assert_eq!(not_ready.len(), wait_table.size());

    let ready_waiters = wait_table.take_ready_waiters(ts, hashes.clone());
    assert!(ready_waiters.is_empty());

    let ready_waiters = wait_table.take_ready_waiters(ts, not_ready.clone());
    assert_eq!(not_ready.len(), ready_waiters.len());
    assert_eq!(0, wait_table.size());
}

#[test]
fn test_wait_table_to_wait_for_entries() {
    let mut wait_table = WaitTable::new(Arc::new(AtomicUsize::new(0)));
    assert!(wait_table.to_wait_for_entries().is_empty());

    for i in 1..5 {
        for j in 0..i {
            wait_table.add_waiter(i.into(), dummy_waiter((i * 10 + j).into(), i.into(), j));
        }
    }

    let mut wait_for_enties = wait_table.to_wait_for_entries();
    wait_for_enties.sort_by_key(|e| e.txn);
    wait_for_enties.reverse();
    for i in 1..5 {
        for j in 0..i {
            let e = wait_for_enties.pop().unwrap();
            assert_eq!(e.get_txn(), i * 10 + j);
            assert_eq!(e.get_wait_for_txn(), i);
            assert_eq!(e.get_key_hash(), j);
        }
    }
    assert!(wait_for_enties.is_empty());
}

#[test]
fn test_wait_table_is_empty() {
    let waiter_count = Arc::new(AtomicUsize::new(0));
    let mut wait_table = WaitTable::new(Arc::clone(&waiter_count));
    wait_table.add_waiter(2.into(), dummy_waiter(1.into(), 2.into(), 2));
    // Increase waiter_count manually and assert the previous value is zero
    assert_eq!(waiter_count.fetch_add(1, Ordering::SeqCst), 0);

    assert!(wait_table
        .remove_waiter(1.into(), Lock { ts: 2.into(), hash: 2 })
        .is_some());
    assert_eq!(waiter_count.load(Ordering::SeqCst), 0);

    wait_table.add_waiter(2.into(), dummy_waiter(1.into(), 2.into(), 2));
    wait_table.add_waiter(3.into(), dummy_waiter(2.into(), 3.into(), 3));
    waiter_count.fetch_add(2, Ordering::SeqCst);

    wait_table.take_ready_waiters(2.into(), vec![2]);
    assert_eq!(waiter_count.load(Ordering::SeqCst), 1);
    wait_table.take_ready_waiters(3.into(), vec![3]);
    assert_eq!(waiter_count.load(Ordering::SeqCst), 0);

    wait_table.add_waiter(4.into(), dummy_waiter(1.into(), 4.into(), 5));
    wait_table.add_waiter(4.into(), dummy_waiter(2.into(), 4.into(), 6));
    waiter_count.fetch_add(2, Ordering::SeqCst);
    wait_table.take_ready_waiters(4.into(), vec![5, 6]);
    assert_eq!(waiter_count.load(Ordering::SeqCst), 0);
}

#[test]
fn hashes_need_not_be_in_order() {
    let mut wait_table = WaitTable::new(Arc::new(AtomicUsize::new(6)));
    for (number, hash) in [(0, 9), (1, 1), (2, 5), (3, 7), (4, 3), (5, 9)] {
        wait_table.add_waiter(1.into(), numbered_waiter(number, 10, 1, hash));
    }
    let ready = wait_table.take_ready_waiters(1.into(), vec![9, 2, 7, 1, 9]);
    let mut found = numbers(&ready);
    found.sort();
    assert_eq!(found, vec![0, 1, 3, 5]);
    assert_eq!(wait_table.size(), 2);
}

#[test]
fn the_last_waiter_fills_the_gap() {
    let mut wait_table = WaitTable::new(Arc::new(AtomicUsize::new(5)));
    for (number, hash) in [(0, 1), (1, 2), (2, 1), (3, 2), (4, 1)] {
        wait_table.add_waiter(1.into(), numbered_waiter(number, 10, 1, hash));
    }
    let ready = wait_table.take_ready_waiters(1.into(), vec![1]);
    assert_eq!(numbers(&ready), vec![0, 4, 2]);
    // Place 0 went to number 4, which left too, and then to number 3.
    let rest = wait_table.take_ready_waiters(1.into(), vec![2]);
    assert_eq!(numbers(&rest), vec![3, 1]);
}

#[test]
fn only_the_named_transaction_is_concerned() {
    let mut wait_table = WaitTable::new(Arc::new(AtomicUsize::new(2)));
    wait_table.add_waiter(1.into(), numbered_waiter(0, 10, 1, 5));
    wait_table.add_waiter(2.into(), numbered_waiter(1, 10, 2, 5));
    assert_eq!(numbers(&wait_table.take_ready_waiters(1.into(), vec![5])), vec![0]);
    assert_eq!(wait_table.size(), 1);
    assert!(wait_table.remove_waiter(10.into(), Lock { ts: 1.into(), hash: 5 }).is_none());
    let removed = wait_table.remove_waiter(10.into(), Lock { ts: 2.into(), hash: 5 });
    assert_eq!(removed.unwrap().cb, 1);
}

#[test]
fn no_hashes_wake_up_nobody() {
    let count = Arc::new(AtomicUsize::new(1));
    let mut wait_table = WaitTable::new(Arc::clone(&count));
    wait_table.add_waiter(1.into(), numbered_waiter(0, 10, 1, 5));
    assert!(wait_table.take_ready_waiters(1.into(), vec![]).is_empty());
    assert_eq!(wait_table.size(), 1);
    assert_eq!(count.load(Ordering::SeqCst), 1);
}

#[test]
fn the_first_of_several_waits_is_removed() {
    let mut wait_table = WaitTable::new(Arc::new(AtomicUsize::new(3)));
    wait_table.add_waiter(1.into(), numbered_waiter(0, 11, 1, 5));
    wait_table.add_waiter(1.into(), numbered_waiter(1, 10, 1, 5));
    wait_table.add_waiter(1.into(), numbered_waiter(2, 10, 1, 5));
    let lock = Lock { ts: 1.into(), hash: 5 };
    assert_eq!(wait_table.find(10.into(), lock).unwrap().cb, 1);
    assert_eq!(wait_table.remove_waiter(10.into(), lock).unwrap().cb, 1);
    assert_eq!(wait_table.remove_waiter(10.into(), lock).unwrap().cb, 2);
    assert!(wait_table.remove_waiter(10.into(), lock).is_none());
    assert!(wait_table.find(10.into(), lock).is_none());
    assert_eq!(wait_table.size(), 1);
}

#[test]
fn a_wait_is_told_apart_by_transaction_and_key() {
    let mut wait_table = WaitTable::new(Arc::new(AtomicUsize::new(1)));
    wait_table.add_waiter(1.into(), numbered_waiter(0, 10, 1, 5));
    assert!(wait_table.remove_waiter(11.into(), Lock { ts: 1.into(), hash: 5 }).is_none());
    assert!(wait_table.remove_waiter(10.into(), Lock { ts: 1.into(), hash: 6 }).is_none());
    assert!(wait_table.remove_waiter(10.into(), Lock { ts: 2.into(), hash: 5 }).is_none());
    assert_eq!(wait_table.size(), 1);
}

#[test]
fn removing_undoes_adding() {
    let mut wait_table = WaitTable::new(Arc::new(AtomicUsize::new(2)));
    wait_table.add_waiter(1.into(), numbered_waiter(0, 10, 1, 5));
    let before = wait_table.to_wait_for_entries();
    assert!(wait_table.add_waiter(1.into(), numbered_waiter(1, 12, 1, 5)));
    let lock = Lock { ts: 1.into(), hash: 5 };
    assert_eq!(wait_table.remove_waiter(12.into(), lock).unwrap(), numbered_waiter(1, 12, 1, 5));
    assert_eq!(wait_table.to_wait_for_entries(), before);
}

#[test]
fn the_ready_are_counted_as_they_are_taken() {
    let mut wait_table = WaitTable::new(Arc::new(AtomicUsize::new(4)));
    for (number, hash) in [(0, 8), (1, 2), (2, 8), (3, 4)] {
        wait_table.add_waiter(1.into(), numbered_waiter(number, 10, 1, hash));
    }
    assert_eq!(wait_table.count_ready_waiters(1.into(), &vec![8, 4]), 3);
    assert_eq!(wait_table.count_ready_waiters(2.into(), &vec![8, 4]), 0);
    assert_eq!(wait_table.take_ready_waiters(1.into(), vec![8, 4]).len(), 3);
    assert_eq!(wait_table.count_ready_waiters(1.into(), &vec![8, 4]), 0);
}

#[test]
fn the_shared_count_wraps_around() {
    let count = Arc::new(AtomicUsize::new(0));
    let mut wait_table = WaitTable::new(Arc::clone(&count));
    wait_table.add_waiter(1.into(), numbered_waiter(0, 10, 1, 5));
    assert!(wait_table.remove_waiter(10.into(), Lock { ts: 1.into(), hash: 5 }).is_some());
    assert_eq!(count.load(Ordering::SeqCst), usize::MAX);
}

#[test]
fn timestamps_are_numbers() {
    assert_eq!(TimeStamp::zero().into_inner(), 0);
    assert_eq!(TimeStamp::from(7).into_inner(), 7);
    assert!(TimeStamp::from(7) < TimeStamp::from(8));
}

#[test]
fn order_and_repetition_of_hashes_do_not_matter() {
    let mut taken = vec![];
    for hashes in [vec![1, 3, 8], vec![8, 1, 3], vec![3, 3, 8, 1, 8]] {
        let mut wait_table = WaitTable::new(Arc::new(AtomicUsize::new(6)));
        for (number, hash) in [(0, 8), (1, 2), (2, 3), (3, 1), (4, 2), (5, 8)] {
            wait_table.add_waiter(1.into(), numbered_waiter(number, 10, 1, hash));
        }
        let ready = numbers(&wait_table.take_ready_waiters(1.into(), hashes));
        let rest = numbers(&wait_table.take_ready_waiters(1.into(), vec![2]));
        taken.push((ready, rest));
    }
    assert_eq!(taken[0].0.len(), 4);
    assert_eq!(taken[0].1.len(), 2);
    assert_eq!(taken[0], taken[1]);
    assert_eq!(taken[0], taken[2]);
}
