//! The way in: handing tasks to the queue of the waiter manager.
use crate::lock::{Lock, TimeStamp};
use crate::storage::ProcessResult;
use crate::task::Task;
use crate::waiter::Answer;
use std::marker::PhantomData;
use vstd::prelude::*;

verus! {

/// A task that comes back because nobody works on the queue any more.
#[derive(Debug, PartialEq, Eq)]
pub struct Stopped<T>(pub T);

/// What becomes of a task that was handed to the queue.
#[derive(Debug, PartialEq, Eq)]
pub struct Notice<C> {
    /// Whether the queue took it.
    pub delivered: bool,
    /// Who has to be called back because it did not.
    pub refused: Option<Answer<C>>,
}

/// What a reply of the queue means. A transaction that cannot be let wait is
/// answered with the result that it came with.
pub open spec fn settled<C, D>(reply: Result<(), Stopped<Task<C, D>>>) -> Notice<C> {
    match reply {
        Ok(_) => Notice { delivered: true, refused: None },
        Err(Stopped(Task::WaitFor { start_ts, cb, pr, lock, timeout })) => Notice {
            delivered: false,
            refused: Some(Answer { cb, pr }),
        },
        Err(_) => Notice { delivered: false, refused: None },
    }
}

/// What a reply of the queue means.
pub fn settle<C, D>(reply: Result<(), Stopped<Task<C, D>>>) -> (notice: Notice<C>)
    ensures
        notice == settled(reply),
        notice.delivered <==> reply is Ok,
        match reply {
            Err(Stopped(Task::WaitFor { start_ts, cb, pr, lock, timeout })) => notice.refused
                == Some(Answer { cb, pr }),
            _ => notice.refused is None,
        },
{
    if let Err(Stopped(task)) = reply {
        let mut refused: Option<Answer<C>> = None;
        if let Task::WaitFor { cb, pr, .. } = task {
            refused = Some(Answer { cb, pr });
        }
        return Notice { delivered: false, refused };
    }
    Notice { delivered: true, refused: None }
}

/// Hands tasks to the waiter manager. `S` puts one task into the queue.
pub struct Scheduler<C, D, S> {
    schedule: S,
    tasks: PhantomData<Task<C, D>>,
}

impl<C, D, S> Scheduler<C, D, S> {
    /// The way into the queue.
    pub closed spec fn queue(&self) -> S {
        self.schedule
    }
}

impl<C, D, S: Clone> Clone for Scheduler<C, D, S> {
    /// Another scheduler for the same queue.
    fn clone(&self) -> (s: Scheduler<C, D, S>)
        ensures
            cloned(self.queue(), s.queue()),
    {
        Scheduler { schedule: self.schedule.clone(), tasks: PhantomData }
    }
}

impl<C, D, S: Fn(Task<C, D>) -> Result<(), Stopped<Task<C, D>>>> Scheduler<C, D, S> {
    /// Whether `notice` is what comes of handing `task` to the queue.
    pub open spec fn is_notice(&self, task: Task<C, D>, notice: Notice<C>) -> bool {
        exists|reply: Result<(), Stopped<Task<C, D>>>| #[trigger]
            call_ensures(self.queue(), (task,), reply) && notice == settled(reply)
    }

    /// A scheduler for the queue behind `scheduler`.
    pub fn new(scheduler: S) -> (s: Scheduler<C, D, S>)
        ensures
            s.queue() == scheduler,
    {
        Scheduler { schedule: scheduler, tasks: PhantomData }
    }

    /// Hands `task` to the queue.
    pub fn notify_scheduler(&self, task: Task<C, D>) -> (notice: Notice<C>)
        requires
            call_requires(self.queue(), (task,)),
        ensures
            self.is_notice(task, notice),
    {
        settle((self.schedule)(task))
    }

    /// Lets a transaction wait for a lock. If that cannot be, it is answered.
    pub fn wait_for(
        &self,
        start_ts: TimeStamp,
        cb: C,
        pr: ProcessResult,
        lock: Lock,
        timeout: u64,
    ) -> (refused: Option<Answer<C>>)
        requires
            call_requires(self.queue(), (Task::WaitFor { start_ts, cb, pr, lock, timeout },)),
        ensures
            exists|notice: Notice<C>| #[trigger]
                self.is_notice(Task::WaitFor { start_ts, cb, pr, lock, timeout }, notice)
                    && refused == notice.refused,
    {
        self.notify_scheduler(Task::WaitFor { start_ts, cb, pr, lock, timeout }).refused
    }

    /// Wakes up those who wait for a lock that has gone.
    pub fn wake_up(&self, lock_ts: TimeStamp, hashes: Vec<u64>, commit_ts: TimeStamp)
        requires
            call_requires(self.queue(), (Task::WakeUp { lock_ts, hashes, commit_ts },)),
        ensures
            exists|notice: Notice<C>| #[trigger]
                self.is_notice(Task::WakeUp { lock_ts, hashes, commit_ts }, notice),
    {
        self.notify_scheduler(Task::WakeUp { lock_ts, hashes, commit_ts });
    }

    /// Shows the wait-for graph to `cb`. Says whether it will be.
    pub fn dump_wait_table(&self, cb: D) -> (delivered: bool)
        requires
            call_requires(self.queue(), (Task::Dump { cb },)),
        ensures
            exists|notice: Notice<C>| #[trigger]
                self.is_notice(Task::Dump { cb }, notice) && delivered == notice.delivered,
    {
        self.notify_scheduler(Task::Dump { cb }).delivered
    }

    /// Gives up a wait that closes a cycle.
    pub fn deadlock(&self, txn_ts: TimeStamp, lock: Lock, deadlock_key_hash: u64)
        requires
            call_requires(
                self.queue(),
                (Task::Deadlock { start_ts: txn_ts, lock, deadlock_key_hash },),
            ),
        ensures
            exists|notice: Notice<C>| #[trigger]
                self.is_notice(
                    Task::Deadlock { start_ts: txn_ts, lock, deadlock_key_hash },
                    notice,
                ),
    {
        self.notify_scheduler(Task::Deadlock { start_ts: txn_ts, lock, deadlock_key_hash });
    }
}

} // verus!
