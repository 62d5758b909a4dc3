use std::cell::RefCell;
use std::collections::VecDeque;
use std::rc::Rc;
use std::sync::atomic::{AtomicUsize, Ordering};
use std::sync::mpsc;
use std::sync::Arc;
use waiter_manager::lock::{Lock, TimeStamp};
use waiter_manager::manager::{wake_up_waiter, Action, Config, WaiterManager};
use waiter_manager::scheduler::{Scheduler, Stopped};
use waiter_manager::storage::{
    LockInfo, MvccError, MvccErrorInner, ProcessResult, StorageError, StorageErrorInner, TxnError,
    TxnErrorInner,
};
use waiter_manager::task::Task;
use waiter_manager::waiter::{Answer, WaitForEntry, Waiter};

type BooleanCallback = Box<dyn FnOnce(Result<(), StorageError>)>;
type DumpCallback = Box<dyn FnOnce(Vec<WaitForEntry>)>;
type Queue = Rc<RefCell<VecDeque<Task<BooleanCallback, DumpCallback>>>>;

fn execute(answer: Answer<BooleanCallback>) {
    match answer.pr {
        ProcessResult::Res => (answer.cb)(Ok(())),
        ProcessResult::Failed { err } => (answer.cb)(Err(err)),
        ProcessResult::MultiRes { .. } => panic!("process result mismatch"),
    }
}

/// Runs a waiter manager against a clock that is moved by hand.
struct Worker {
    manager: WaiterManager<BooleanCallback>,
    queue: Queue,
    now: u64,
    timers: Vec<(u64, Action<BooleanCallback, DumpCallback>)>,
    cleaned_up: Vec<(TimeStamp, Lock)>,
}

impl Worker {
    fn run_tasks(&mut self) {
        loop {
            let task = self.queue.borrow_mut().pop_front();
            match task {
                Some(task) => {
                    assert!(self.manager.accepts(&task));
                    for action in self.manager.run(task) {
                        self.perform(action);
                    }
                }
                None => return,
            }
        }
    }

    fn perform(&mut self, action: Action<BooleanCallback, DumpCallback>) {
        match action {
            Action::ExpireAfter { delay, .. } => self.timers.push((self.now + delay, action)),
            Action::WakeUpAfter { delay, .. } => self.timers.push((self.now + delay, action)),
            Action::CleanUpWaitFor { start_ts, lock } => self.cleaned_up.push((start_ts, lock)),
            Action::Reply(answer) => execute(answer),
            Action::Report { viewer, entries } => viewer(entries),
        }
    }

    fn advance(&mut self, millis: u64) {
        self.run_tasks();
        let until = self.now + millis;
        self.timers.sort_by_key(|timer| timer.0);
        while !self.timers.is_empty() && self.timers[0].0 <= until {
            let (due, action) = self.timers.remove(0);
            self.now = due;
            match action {
                Action::ExpireAfter { start_ts, lock, .. } => {
                    if let Some(answer) = self.manager.handle_timeout(start_ts, lock) {
                        execute(answer);
                    }
                }
                Action::WakeUpAfter { waiter, commit_ts, .. } => {
                    execute(wake_up_waiter(waiter, commit_ts));
                }
                _ => unreachable!(),
            }
        }
        self.now = until;
    }
}

#[test]
fn test_waiter_manager() {
    let cfg = Config { wait_for_lock_timeout: 1000, wake_up_delay_duration: 1 };
    let queue: Queue = Rc::new(RefCell::new(VecDeque::new()));
    let mut waiter_mgr_worker = Worker {
        manager: WaiterManager::new(Arc::new(AtomicUsize::new(0)), &cfg),
        queue: Rc::clone(&queue),
        now: 0,
        timers: vec![],
        cleaned_up: vec![],
    };
    let waiter_mgr_scheduler = Scheduler::new(move |task| {
        queue.borrow_mut().push_back(task);
        Ok::<(), Stopped<Task<BooleanCallback, DumpCallback>>>(())
    });

    // default timeout
    let (tx, rx) = mpsc::channel();
    let cb: BooleanCallback = Box::new(move |result| {
        tx.send(result).unwrap();
    });
    assert!(waiter_mgr_scheduler
        .wait_for(
            TimeStamp::zero(),
            cb,
            ProcessResult::Res,
            Lock { ts: TimeStamp::zero(), hash: 0 },
            0,
        )
        .is_none());
    waiter_mgr_worker.advance(500);
    assert!(rx.try_recv().is_err());
    waiter_mgr_worker.advance(1000);
    assert_eq!(rx.try_recv().unwrap().unwrap(), ());

    // custom timeout
    let (tx, rx) = mpsc::channel();
    let cb: BooleanCallback = Box::new(move |result| {
        tx.send(result).unwrap();
    });
    waiter_mgr_scheduler.wait_for(
        TimeStamp::zero(),
        cb,
        ProcessResult::Res,
        Lock { ts: TimeStamp::zero(), hash: 0 },
        100,
    );
    waiter_mgr_worker.advance(500);
    assert_eq!(rx.try_recv().unwrap().unwrap(), ());

    // wake-up
    let (tx, rx) = mpsc::channel();
    let cb: BooleanCallback = Box::new(move |result| {
        tx.send(result).unwrap();
    });
    waiter_mgr_scheduler.wait_for(
        TimeStamp::zero(),
        cb,
        ProcessResult::Res,
        Lock { ts: TimeStamp::zero(), hash: 1 },
        0,
    );
    waiter_mgr_scheduler.wake_up(TimeStamp::zero(), vec![3, 1, 2], 1.into());
    waiter_mgr_worker.advance(500);
    assert!(rx.try_recv().unwrap().is_err());
    assert_eq!(
        waiter_mgr_worker.cleaned_up,
        vec![(TimeStamp::zero(), Lock { ts: TimeStamp::zero(), hash: 1 })]
    );
}

fn manager(timeout: u64, delay: u64) -> WaiterManager<u32> {
    let cfg = Config { wait_for_lock_timeout: timeout, wake_up_delay_duration: delay };
    WaiterManager::new(Arc::new(AtomicUsize::new(0)), &cfg)
}

fn lock(ts: u64, hash: u64) -> Lock {
    Lock { ts: ts.into(), hash }
}

fn locked(key: &[u8]) -> ProcessResult {
    let info = LockInfo {
        primary_lock: b"primary".to_vec(),
        lock_version: 5,
        key: key.to_vec(),
        lock_ttl: 3000,
        txn_size: 1,
    };
    ProcessResult::MultiRes {
        results: vec![Err(StorageError::from(TxnError::from(MvccError::from(
            MvccErrorInner::KeyIsLocked(info),
        ))))],
    }
}

fn wait(mgr: &mut WaiterManager<u32>, cb: u32, start_ts: u64, l: Lock) {
    let pr = locked(b"k");
    let task: Task<u32, u32> =
        Task::WaitFor { start_ts: start_ts.into(), cb, pr, lock: l, timeout: 0 };
    mgr.run(task);
}

fn wake(mgr: &mut WaiterManager<u32>, ts: u64, hashes: Vec<u64>) -> Vec<Action<u32, u32>> {
    mgr.handle_wake_up(ts.into(), hashes, 99.into())
}

fn cause(pr: ProcessResult) -> MvccErrorInner {
    match pr {
        ProcessResult::Failed { err: StorageError(storage) } => match *storage {
            StorageErrorInner::Txn(TxnError(txn)) => match *txn {
                TxnErrorInner::Mvcc(MvccError(mvcc)) => *mvcc,
                TxnErrorInner::Other(_) => panic!("unexpected error"),
            },
            StorageErrorInner::Other(_) => panic!("unexpected error"),
        },
        _ => panic!("unexpected result"),
    }
}

fn delay_granted(timeout: u64, longest: u64) -> u64 {
    let mut mgr = manager(longest, 0);
    let waiter = Waiter { start_ts: 1.into(), cb: 0, pr: ProcessResult::Res, lock: lock(2, 3) };
    match mgr.handle_wait_for::<u32>(waiter, timeout) {
        Action::ExpireAfter { delay, start_ts, lock: l } => {
            assert_eq!(start_ts, TimeStamp::from(1));
            assert_eq!(l, lock(2, 3));
            delay
        }
        _ => panic!("unexpected action"),
    }
}

#[test]
fn a_timeout_is_bounded() {
    assert_eq!(delay_granted(0, 1000), 1000);
    assert_eq!(delay_granted(1, 1000), 1);
    assert_eq!(delay_granted(1000, 1000), 1000);
    assert_eq!(delay_granted(1001, 1000), 1000);
    assert_eq!(delay_granted(7, 0), 0);
}

#[test]
fn an_expired_waiter_gets_its_own_result_once() {
    let mut mgr = manager(1000, 0);
    wait(&mut mgr, 7, 10, lock(2, 3));
    assert_eq!(mgr.handle_timeout(11.into(), lock(2, 3)), None);
    let answer = mgr.handle_timeout(10.into(), lock(2, 3));
    assert_eq!(answer, Some(Answer { cb: 7, pr: locked(b"k") }));
    assert_eq!(mgr.handle_timeout(10.into(), lock(2, 3)), None);
}

#[test]
fn wake_ups_come_in_order_of_start() {
    let mut mgr = manager(1000, 20);
    for (cb, start_ts) in [(0, 30), (1, 10), (2, 40), (3, 20)] {
        wait(&mut mgr, cb, start_ts, lock(5, 6));
    }
    let actions = wake(&mut mgr, 5, vec![6]);
    assert_eq!(actions.len(), 8);
    for (i, (cb, start_ts)) in [(1, 10), (3, 20), (0, 30), (2, 40)].into_iter().enumerate() {
        assert_eq!(
            actions[2 * i],
            Action::CleanUpWaitFor { start_ts: TimeStamp(start_ts), lock: lock(5, 6) }
        );
        match &actions[2 * i + 1] {
            Action::WakeUpAfter { delay, waiter, commit_ts } => {
                assert_eq!(*delay, 20 * i as u64);
                assert_eq!(waiter.cb, cb);
                assert_eq!(*commit_ts, TimeStamp(99));
            }
            _ => panic!("unexpected action"),
        }
    }
}

#[test]
fn without_delay_waiters_are_answered_at_once() {
    let mut mgr = manager(1000, 0);
    wait(&mut mgr, 7, 10, lock(5, 6));
    let mut actions = wake(&mut mgr, 5, vec![6]);
    assert_eq!(actions.len(), 2);
    match actions.pop().unwrap() {
        Action::Reply(answer) => {
            assert_eq!(answer.cb, 7);
            assert_eq!(
                cause(answer.pr),
                MvccErrorInner::WriteConflict {
                    start_ts: 10.into(),
                    conflict_start_ts: 5.into(),
                    conflict_commit_ts: 99.into(),
                    key: vec![],
                    primary: vec![],
                }
            );
        }
        _ => panic!("unexpected action"),
    }
}

#[test]
fn whoever_was_woken_up_is_gone() {
    let mut mgr = manager(1000, 0);
    wait(&mut mgr, 7, 10, lock(5, 6));
    assert_eq!(wake(&mut mgr, 5, vec![6, 8]).len(), 2);
    assert_eq!(mgr.handle_timeout(10.into(), lock(5, 6)), None);
    assert_eq!(mgr.handle_deadlock(10.into(), lock(5, 6), 1), None);
    assert_eq!(wake(&mut mgr, 5, vec![6, 8]).len(), 0);
}

#[test]
fn a_deadlock_names_the_key() {
    let mut mgr = manager(1000, 0);
    wait(&mut mgr, 7, 10, lock(5, 6));
    let task: Task<u32, u32> =
        Task::Deadlock { start_ts: 10.into(), lock: lock(5, 6), deadlock_key_hash: 77 };
    assert!(mgr.accepts(&task));
    let mut actions = mgr.run(task);
    assert_eq!(actions.len(), 1);
    match actions.pop().unwrap() {
        Action::Reply(answer) => {
            assert_eq!(answer.cb, 7);
            assert_eq!(
                cause(answer.pr),
                MvccErrorInner::Deadlock {
                    start_ts: 10.into(),
                    lock_ts: 5.into(),
                    lock_key: b"k".to_vec(),
                    deadlock_key_hash: 77,
                }
            );
        }
        _ => panic!("unexpected action"),
    }
    let again: Task<u32, u32> =
        Task::Deadlock { start_ts: 10.into(), lock: lock(5, 6), deadlock_key_hash: 77 };
    assert!(mgr.accepts(&again));
    assert_eq!(mgr.run(again).len(), 0);
}

#[test]
fn a_deadlock_without_a_key_is_not_accepted() {
    let mut mgr = manager(1000, 0);
    let waiter = Waiter { start_ts: 10.into(), cb: 0, pr: ProcessResult::Res, lock: lock(5, 6) };
    mgr.handle_wait_for::<u32>(waiter, 0);
    let task: Task<u32, u32> =
        Task::Deadlock { start_ts: 10.into(), lock: lock(5, 6), deadlock_key_hash: 1 };
    assert!(!mgr.accepts(&task));
}

#[test]
fn delays_that_cannot_be_told_are_not_accepted() {
    let mut mgr = manager(1000, u64::MAX);
    let wake_up = || -> Task<u32, u32> {
        Task::WakeUp { lock_ts: 5.into(), hashes: vec![6], commit_ts: 9.into() }
    };
    assert!(mgr.accepts(&wake_up()));
    wait(&mut mgr, 0, 10, lock(5, 6));
    wait(&mut mgr, 1, 11, lock(5, 7));
    assert!(mgr.accepts(&wake_up()));
    wait(&mut mgr, 2, 12, lock(5, 6));
    wait(&mut mgr, 3, 13, lock(5, 6));
    assert!(!mgr.accepts(&wake_up()));
}

#[test]
fn a_dump_shows_everybody_and_changes_nothing() {
    let mut mgr = manager(1000, 0);
    wait(&mut mgr, 0, 10, lock(5, 6));
    wait(&mut mgr, 1, 11, lock(5, 7));
    wait(&mut mgr, 2, 12, lock(8, 9));
    for _ in 0..2 {
        let mut actions = mgr.run(Task::Dump { cb: 33 });
        assert_eq!(actions.len(), 1);
        match actions.pop().unwrap() {
            Action::Report { viewer, mut entries } => {
                assert_eq!(viewer, 33);
                entries.sort_by_key(|e| e.txn);
                assert_eq!(
                    entries,
                    vec![
                        WaitForEntry { txn: 10, wait_for_txn: 5, key_hash: 6 },
                        WaitForEntry { txn: 11, wait_for_txn: 5, key_hash: 7 },
                        WaitForEntry { txn: 12, wait_for_txn: 8, key_hash: 9 },
                    ]
                );
            }
            _ => panic!("unexpected action"),
        }
    }
}

#[test]
fn every_callback_is_seen_to_once() {
    let count = Arc::new(AtomicUsize::new(4));
    let cfg = Config { wait_for_lock_timeout: 1000, wake_up_delay_duration: 3 };
    let mut mgr: WaiterManager<u32> = WaiterManager::new(Arc::clone(&count), &cfg);
    for (cb, hash) in [(0, 1), (1, 2), (2, 2), (3, 3)] {
        wait(&mut mgr, cb, 10 + u64::from(cb), lock(5, hash));
    }
    let mut seen = vec![];
    for action in wake(&mut mgr, 5, vec![2]) {
        if let Action::WakeUpAfter { waiter, .. } = action {
            seen.push(waiter.cb);
        }
    }
    assert_eq!(count.load(Ordering::SeqCst), 2);
    seen.push(mgr.handle_deadlock(13.into(), lock(5, 3), 1).unwrap().cb);
    assert_eq!(count.load(Ordering::SeqCst), 1);
    seen.push(mgr.handle_timeout(10.into(), lock(5, 1)).unwrap().cb);
    assert_eq!(count.load(Ordering::SeqCst), 0);
    seen.sort();
    assert_eq!(seen, vec![0, 1, 2, 3]);
}

#[test]
fn nobody_waits_once_the_timers_have_gone_off() {
    let mut mgr = manager(1000, 0);
    let mut timers = vec![];
    for cb in 0..3 {
        let waiter =
            Waiter { start_ts: 10.into(), cb, pr: ProcessResult::Res, lock: lock(5, 6) };
        timers.push(mgr.handle_wait_for::<u32>(waiter, 100));
    }
    assert_eq!(mgr.handle_deadlock(11.into(), lock(5, 6), 1), None);
    let mut answered = vec![];
    for timer in timers {
        match timer {
            Action::ExpireAfter { delay, start_ts, lock: l } => {
                assert_eq!(delay, 100);
                answered.push(mgr.handle_timeout(start_ts, l).unwrap().cb);
            }
            _ => panic!("unexpected action"),
        }
    }
    assert_eq!(answered, vec![0, 1, 2]);
    assert_eq!(wake(&mut mgr, 5, vec![6]).len(), 0);
}
