use std::cell::RefCell;
use std::rc::Rc;
use waiter_manager::decimal::push_decimal;
use waiter_manager::lock::Lock;
use waiter_manager::scheduler::{settle, Notice, Scheduler, Stopped};
use waiter_manager::storage::ProcessResult;
use waiter_manager::task::{counter_of, Counter, Task};
use waiter_manager::waiter::Answer;

fn lock() -> Lock {
    Lock { ts: 20.into(), hash: 30 }
}

fn wait_for() -> Task<u32, u32> {
    Task::WaitFor { start_ts: 10.into(), cb: 1, pr: ProcessResult::Res, lock: lock(), timeout: 5 }
}

fn wake_up() -> Task<u32, u32> {
    Task::WakeUp { lock_ts: 20.into(), hashes: vec![30], commit_ts: 40.into() }
}

fn deadlock() -> Task<u32, u32> {
    Task::Deadlock { start_ts: 10.into(), lock: lock(), deadlock_key_hash: 50 }
}

#[test]
fn tasks_reach_the_queue() {
    let queue: Rc<RefCell<Vec<Task<u32, u32>>>> = Rc::new(RefCell::new(vec![]));
    let way_in = Rc::clone(&queue);
    let scheduler = Scheduler::new(move |task| {
        way_in.borrow_mut().push(task);
        Ok(())
    });
    assert_eq!(scheduler.wait_for(10.into(), 1, ProcessResult::Res, lock(), 5), None);
    scheduler.wake_up(20.into(), vec![30], 40.into());
    assert!(scheduler.clone().dump_wait_table(2));
    scheduler.deadlock(10.into(), lock(), 50);
    let expected = vec![wait_for(), wake_up(), Task::Dump { cb: 2 }, deadlock()];
    assert!(*queue.borrow() == expected);
}

#[test]
fn a_refused_wait_is_answered() {
    let scheduler = Scheduler::new(|task: Task<u32, u32>| Err(Stopped(task)));
    let refused = scheduler.wait_for(10.into(), 1, ProcessResult::Res, lock(), 5);
    assert_eq!(refused, Some(Answer { cb: 1, pr: ProcessResult::Res }));
    assert!(!scheduler.dump_wait_table(2));
    let notice = scheduler.notify_scheduler(wake_up());
    assert_eq!(notice, Notice { delivered: false, refused: None });
}

#[test]
fn replies_are_settled() {
    assert_eq!(
        settle::<u32, u32>(Ok(())),
        Notice { delivered: true, refused: None }
    );
    assert_eq!(
        settle(Err(Stopped(wait_for()))),
        Notice { delivered: false, refused: Some(Answer { cb: 1, pr: ProcessResult::Res }) }
    );
    assert_eq!(
        settle(Err(Stopped(deadlock()))),
        Notice { delivered: false, refused: None }
    );
}

#[test]
fn tasks_are_displayed() {
    assert_eq!(wait_for().display(), "txn:10 waiting for 20:30");
    assert_eq!(wake_up().display(), "waking up txns waiting for 20");
    assert_eq!(Task::<u32, u32>::Dump { cb: 2 }.display(), "dump");
    assert_eq!(deadlock().display(), "txn:10 deadlock");
}

#[test]
fn numbers_are_written_in_decimal() {
    for n in [0, 7, 10, 99, 100, 1234567890, u64::MAX] {
        let mut text = String::from(">");
        push_decimal(&mut text, n);
        assert_eq!(text, format!(">{}", n));
    }
}

#[test]
fn all_tasks_but_deadlocks_are_counted() {
    assert_eq!(counter_of(&wait_for()), Some(Counter::WaitFor));
    assert_eq!(counter_of(&wake_up()), Some(Counter::WakeUp));
    assert_eq!(counter_of(&Task::<u32, u32>::Dump { cb: 2 }), Some(Counter::Dump));
    assert_eq!(counter_of(&deadlock()), None);
}
