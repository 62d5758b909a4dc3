//! The decisions about those who wait.
use crate::lemmas::{lemma_after_leaving_listed, lemma_found_waits};
use crate::lock::{Lock, TimeStamp};
use crate::model::{
    after_leaving, along, ascending_by_start_ts, find_waiter, gather, is_walk, leaving,
    listed_by_lock, no_empty_lists, with_waiter, without_waiter, Table,
};
use crate::sorting::sort_unstable_by_start_ts;
use crate::storage::{
    extract_raw_key_from_process_result, has_raw_key, locked_by, mvcc_cause, MvccError,
    MvccErrorInner, ProcessResult, StorageError, StorageErrorInner, TxnError, TxnErrorInner,
};
use crate::task::Task;
use crate::wait_table::WaitTable;
use crate::waiter::{edge_of, Answer, WaitForEntry, Waiter};
use crate::waiter_count::takes_off;
use std::sync::atomic::AtomicUsize;
use std::sync::Arc;
use vstd::prelude::*;

verus! {

/// What can be set. Times are in milliseconds.
#[derive(Clone, Copy, Debug, PartialEq, Eq, Structural)]
pub struct Config {
    /// For how long a transaction waits at most.
    pub wait_for_lock_timeout: u64,
    /// How much later than the one before it each transaction is woken up.
    pub wake_up_delay_duration: u64,
}

/// What is to be done. Times are in milliseconds.
#[derive(Debug, PartialEq, Eq)]
pub enum Action<C, D> {
    /// Report back through [`WaiterManager::handle_timeout`] after `delay`.
    ExpireAfter { delay: u64, start_ts: TimeStamp, lock: Lock },
    /// Tell the deadlock detector that `start_ts` no longer waits for `lock`.
    CleanUpWaitFor { start_ts: TimeStamp, lock: Lock },
    /// Call back now.
    Reply(Answer<C>),
    /// After `delay`, call back with what [`wake_up_waiter`] says.
    WakeUpAfter { delay: u64, waiter: Waiter<C>, commit_ts: TimeStamp },
    /// Show the edges of the wait-for graph.
    Report { viewer: D, entries: Vec<WaitForEntry> },
}

/// For how long a transaction waits that asks for `timeout`: `longest` where it
/// asks for nothing or for more than that.
pub open spec fn granted_timeout(timeout: u64, longest: u64) -> u64 {
    if timeout == 0 || timeout > longest {
        longest
    } else {
        timeout
    }
}

/// `answer` tells `waiter` that the holder of its lock committed at `commit_ts`.
pub open spec fn is_wake_up_answer<C>(
    answer: Answer<C>,
    waiter: Waiter<C>,
    commit_ts: TimeStamp,
) -> bool {
    &&& answer.cb == waiter.cb
    &&& answer.pr matches ProcessResult::Failed { err }
    &&& mvcc_cause(err) matches Some(
        MvccErrorInner::WriteConflict {
            start_ts,
            conflict_start_ts,
            conflict_commit_ts,
            key,
            primary,
        },
    )
    &&& start_ts == waiter.start_ts
    &&& conflict_start_ts == waiter.lock.ts
    &&& conflict_commit_ts == commit_ts
    &&& key@.len() == 0
    &&& primary@.len() == 0
}

/// `answer` tells `waiter` that it is part of a deadlock.
pub open spec fn is_deadlock_answer<C>(
    answer: Answer<C>,
    waiter: Waiter<C>,
    hash: u64,
) -> bool {
    &&& answer.cb == waiter.cb
    &&& answer.pr matches ProcessResult::Failed { err }
    &&& mvcc_cause(err) matches Some(
        MvccErrorInner::Deadlock { start_ts, lock_ts, lock_key, deadlock_key_hash },
    )
    &&& start_ts == waiter.start_ts
    &&& lock_ts == waiter.lock.ts
    &&& locked_by(waiter.pr) matches Some(info)
    &&& lock_key@ == info.key@
    &&& deadlock_key_hash == hash
}

/// The error that a waiter gets when its lock has gone.
pub fn wake_up_waiter<C>(waiter: Waiter<C>, commit_ts: TimeStamp) -> (answer: Answer<C>)
    ensures
        is_wake_up_answer(answer, waiter, commit_ts),
        ({
            &&& answer.cb == waiter.cb
            &&& answer.pr matches ProcessResult::Failed { err }
            &&& *err.0 matches StorageErrorInner::Txn(txn)
            &&& *txn.0 matches TxnErrorInner::Mvcc(mvcc)
            &&& *mvcc.0 matches MvccErrorInner::WriteConflict {
                start_ts,
                conflict_start_ts,
                conflict_commit_ts,
                key,
                primary,
            }
            &&& start_ts == waiter.start_ts
            &&& conflict_start_ts == waiter.lock.ts
            &&& conflict_commit_ts == commit_ts
            &&& key@.len() == 0
            &&& primary@.len() == 0
        }),
{
    let mvcc_err = MvccError::from(
        MvccErrorInner::WriteConflict {
            start_ts: waiter.start_ts,
            conflict_start_ts: waiter.lock.ts,
            conflict_commit_ts: commit_ts,
            key: Vec::new(),
            primary: Vec::new(),
        },
    );
    let pr = ProcessResult::Failed { err: StorageError::from(TxnError::from(mvcc_err)) };
    Answer { cb: waiter.cb, pr }
}

/// The same waiters, those that started first in front.
pub open spec fn is_queue_of<C>(queue: Seq<Waiter<C>>, s: Seq<Waiter<C>>) -> bool {
    &&& ascending_by_start_ts(queue)
    &&& queue.to_multiset() == s.to_multiset()
}

/// `action` wakes up the waiter at place `i` of the queue: at once where there is
/// no delay, else `i` delays from now.
pub open spec fn is_wake_up<C, D>(
    action: Action<C, D>,
    waiter: Waiter<C>,
    i: int,
    delay: u64,
    commit_ts: TimeStamp,
) -> bool {
    if delay > 0 {
        action matches Action::WakeUpAfter { delay: later, waiter: w, commit_ts: ts } && later
            == delay * i && w == waiter && ts == commit_ts
    } else {
        action matches Action::Reply(answer) && is_wake_up_answer(answer, waiter, commit_ts)
    }
}

/// `actions` wakes up the queue from front to back, each waiter after the
/// deadlock detector has been told.
pub open spec fn wakes_up<C, D>(
    actions: Seq<Action<C, D>>,
    queue: Seq<Waiter<C>>,
    delay: u64,
    commit_ts: TimeStamp,
) -> bool {
    &&& actions.len() == 2 * queue.len()
    &&& forall|i: int|
        #![trigger queue[i]]
        0 <= i < queue.len() ==> {
            &&& actions[2 * i] == Action::<C, D>::CleanUpWaitFor {
                start_ts: queue[i].start_ts,
                lock: queue[i].lock,
            }
            &&& is_wake_up(actions[2 * i + 1], queue[i], i, delay, commit_ts)
        }
}

/// The last of `n` delays can still be told in milliseconds.
pub open spec fn delays_fit(delay: u64, n: nat) -> bool {
    n > 0 ==> delay * (n - 1) <= u64::MAX
}

/// `entries` are the edges of the wait-for graph, list by list.
pub open spec fn is_dump<C>(entries: Seq<WaitForEntry>, m: Table<C>) -> bool {
    &&& exists|order: Seq<u64>| #[trigger]
        is_walk(m, order) && entries == along(m, order).map_values(|w: Waiter<C>| edge_of(w))
    &&& entries.to_multiset() == gather(m, |w: Waiter<C>| edge_of(w))
}

/// How `task` changes the table `m` into `n`, and what else is to be done for it.
pub open spec fn is_run<C, D>(
    cfg: Config,
    m: Table<C>,
    task: Task<C, D>,
    n: Table<C>,
    actions: Seq<Action<C, D>>,
) -> bool {
    match task {
        Task::WaitFor { start_ts, cb, pr, lock, timeout } => {
            &&& n == with_waiter(m, lock.ts.0, Waiter { start_ts, cb, pr, lock })
            &&& actions == seq![
                Action::<C, D>::ExpireAfter {
                    delay: granted_timeout(timeout, cfg.wait_for_lock_timeout),
                    start_ts,
                    lock,
                },
            ]
        },
        Task::WakeUp { lock_ts, hashes, commit_ts } => {
            &&& n == after_leaving(m, lock_ts.0, hashes@)
            &&& exists|queue: Seq<Waiter<C>>| #[trigger]
                is_queue_of(queue, leaving(m, lock_ts.0, hashes@)) && wakes_up(
                    actions,
                    queue,
                    cfg.wake_up_delay_duration,
                    commit_ts,
                )
        },
        Task::Dump { cb } => {
            &&& n == m
            &&& actions.len() == 1
            &&& actions[0] matches Action::Report { viewer, entries }
            &&& viewer == cb
            &&& is_dump(entries@, m)
        },
        Task::Deadlock { start_ts, lock, deadlock_key_hash } => {
            &&& n == without_waiter(m, start_ts, lock)
            &&& match find_waiter(m, start_ts, lock) {
                Some(w) => {
                    &&& actions.len() == 1
                    &&& actions[0] matches Action::Reply(answer)
                    &&& is_deadlock_answer(answer, w, deadlock_key_hash)
                },
                None => actions.len() == 0,
            }
        },
    }
}

/// How many waiters leave the table `m` when `task` is run.
pub open spec fn left_by<C, D>(m: Table<C>, task: Task<C, D>) -> int {
    match task {
        Task::WakeUp { lock_ts, hashes, commit_ts } => leaving(
            m,
            lock_ts.0,
            hashes@,
        ).len() as int,
        Task::Deadlock { start_ts, lock, deadlock_key_hash } => if find_waiter(
            m,
            start_ts,
            lock,
        ) is Some {
            1
        } else {
            0
        },
        _ => 0,
    }
}

/// Keeps those who wait for pessimistic locks and wakes them up.
pub struct WaiterManager<C> {
    wait_table: WaitTable<C>,
    default_wait_for_lock_timeout: u64,
    wake_up_delay_duration: u64,
}

impl<C> View for WaiterManager<C> {
    type V = Table<C>;

    closed spec fn view(&self) -> Table<C> {
        self.wait_table@
    }
}

impl<C> WaiterManager<C> {
    /// Every waiter is listed under the holder of its lock, and nobody is listed
    /// without a waiter.
    pub open spec fn wf(&self) -> bool {
        &&& no_empty_lists(self@)
        &&& listed_by_lock(self@)
    }

    /// The settings.
    pub closed spec fn config(&self) -> Config {
        Config {
            wait_for_lock_timeout: self.default_wait_for_lock_timeout,
            wake_up_delay_duration: self.wake_up_delay_duration,
        }
    }

    /// The number of waiters that is shared with whoever lets them in.
    pub closed spec fn shared_count(&self) -> Arc<AtomicUsize> {
        self.wait_table.shared_count()
    }

    /// How many waiters this manager has asked to be taken off the shared number.
    pub closed spec fn released(&self) -> int {
        self.wait_table.released()
    }

    /// The same settings and the same shared number.
    pub open spec fn same_setup(&self, other: &WaiterManager<C>) -> bool {
        &&& self.config() == other.config()
        &&& self.shared_count() == other.shared_count()
    }

    /// A manager with nobody waiting.
    pub fn new(waiter_count: Arc<AtomicUsize>, cfg: &Config) -> (manager: WaiterManager<C>)
        ensures
            manager.wf(),
            manager@ == Map::<u64, Seq<Waiter<C>>>::empty(),
            manager.config() == *cfg,
            manager.shared_count() == waiter_count,
            manager.released() == 0,
    {
        WaiterManager {
            wait_table: WaitTable::new(waiter_count),
            default_wait_for_lock_timeout: cfg.wait_for_lock_timeout,
            wake_up_delay_duration: cfg.wake_up_delay_duration,
        }
    }

    /// Lets `waiter` wait until something happens or its time is up. The timer is
    /// needed: if the leader of the region changes, the commit or rollback goes to
    /// the new leader and nobody wakes up those who wait here.
    pub fn handle_wait_for<D>(&mut self, waiter: Waiter<C>, timeout: u64) -> (action: Action<C, D>)
        requires
            old(self).wf(),
        ensures
            final(self).wf(),
            final(self)@ == with_waiter(old(self)@, waiter.lock.ts.0, waiter),
            action == (Action::<C, D>::ExpireAfter {
                delay: granted_timeout(timeout, old(self).config().wait_for_lock_timeout),
                start_ts: waiter.start_ts,
                lock: waiter.lock,
            }),
            ({
                let longest: u64 = old(self).config().wait_for_lock_timeout;
                &&& action matches Action::ExpireAfter { delay, .. }
                &&& timeout == 0 || timeout > longest ==> delay == longest
                &&& 0 < timeout <= longest ==> delay == timeout
            }),
            final(self)@.contains_key(waiter.lock.ts.0),
            final(self)@[waiter.lock.ts.0].last() == waiter,
            final(self).same_setup(old(self)),
            final(self).released() == old(self).released(),
    {
        let lock = waiter.lock;
        let start_ts = waiter.start_ts;
        self.wait_table.add_waiter(lock.ts, waiter);
        let mut timeout = timeout;
        if timeout == 0 || timeout > self.default_wait_for_lock_timeout {
            timeout = self.default_wait_for_lock_timeout;
        }
        Action::ExpireAfter { delay: timeout, start_ts, lock }
    }

    /// Answers a waiter whose time is up, unless it has been answered already.
    pub fn handle_timeout(&mut self, start_ts: TimeStamp, lock: Lock) -> (answer: Option<Answer<C>>)
        requires
            old(self).wf(),
        ensures
            final(self).wf(),
            final(self)@ == without_waiter(old(self)@, start_ts, lock),
            answer == match find_waiter(old(self)@, start_ts, lock) {
                Some(w) => Some(Answer { cb: w.cb, pr: w.pr }),
                None => None,
            },
            final(self).same_setup(old(self)),
            answer is Some ==> takes_off(old(self).shared_count(), 1),
            final(self).released() == old(self).released() + if answer is Some {
                1int
            } else {
                0
            },
    {
        match self.wait_table.remove_waiter(start_ts, lock) {
            Some(waiter) => Some(Answer { cb: waiter.cb, pr: waiter.pr }),
            None => None,
        }
    }

    /// Wakes up those who wait for a lock of `lock_ts` on a key with one of these
    /// hashes, in the order in which they started. The delays make it more likely
    /// that whoever started first gets the lock.
    pub fn handle_wake_up<D>(
        &mut self,
        lock_ts: TimeStamp,
        hashes: Vec<u64>,
        commit_ts: TimeStamp,
    ) -> (actions: Vec<Action<C, D>>)
        requires
            old(self).wf(),
            delays_fit(
                old(self).config().wake_up_delay_duration,
                leaving(old(self)@, lock_ts.0, hashes@).len(),
            ),
        ensures
            final(self).wf(),
            final(self)@ == after_leaving(old(self)@, lock_ts.0, hashes@),
            exists|queue: Seq<Waiter<C>>| #[trigger]
                is_queue_of(queue, leaving(old(self)@, lock_ts.0, hashes@)) && wakes_up(
                    actions@,
                    queue,
                    old(self).config().wake_up_delay_duration,
                    commit_ts,
                ),
            final(self).same_setup(old(self)),
            old(self)@.contains_key(lock_ts.0) ==> takes_off(
                old(self).shared_count(),
                leaving(old(self)@, lock_ts.0, hashes@).len() as usize,
            ),
            final(self).released() == old(self).released() + leaving(
                old(self)@,
                lock_ts.0,
                hashes@,
            ).len(),
    {
        let ghost asked = hashes@;
        let mut ready_waiters = self.wait_table.take_ready_waiters(lock_ts, hashes);
        let ghost found = ready_waiters@;
        sort_unstable_by_start_ts(&mut ready_waiters);
        let ghost queue = ready_waiters@;
        let total = ready_waiters.len();
        proof {
            vstd::seq_lib::to_multiset_len(queue);
            vstd::seq_lib::to_multiset_len(found);
            lemma_after_leaving_listed(old(self)@, lock_ts.0, asked);
        }
        let delay = self.wake_up_delay_duration;
        let mut actions: Vec<Action<C, D>> = Vec::new();
        let mut i: usize = 0;
        for waiter in iter: ready_waiters.into_iter()
            invariant
                iter.seq() == queue,
                i == iter.index(),
                queue.len() == total,
                delays_fit(delay, queue.len()),
                wakes_up(actions@, queue.take(i as int), delay, commit_ts),
        {
            let ghost before = actions@;
            assert(waiter == queue[i as int]);
            actions.push(
                Action::CleanUpWaitFor { start_ts: waiter.start_ts, lock: waiter.lock },
            );
            if delay > 0 {
                assert(delay * i <= delay * (queue.len() - 1)) by (nonlinear_arith)
                    requires
                        i <= queue.len() - 1,
                        delay >= 0,
                ;
                actions.push(Action::WakeUpAfter { delay: delay * (i as u64), waiter, commit_ts });
            } else {
                actions.push(Action::Reply(wake_up_waiter(waiter, commit_ts)));
            }
            proof {
                let now = queue.take(i + 1);
                assert forall|j: int|
                    #![trigger now[j]]
                    0 <= j < now.len() implies actions@[2 * j] == (Action::<
                    C,
                    D,
                >::CleanUpWaitFor { start_ts: now[j].start_ts, lock: now[j].lock }) && is_wake_up(
                    actions@[2 * j + 1],
                    now[j],
                    j,
                    delay,
                    commit_ts,
                ) by {
                    if j < i {
                        assert(now[j] == queue.take(i as int)[j]);
                        assert(actions@[2 * j] == before[2 * j]);
                        assert(actions@[2 * j + 1] == before[2 * j + 1]);
                    }
                }
            }
            i += 1;
        }
        assert(queue.take(queue.len() as int) =~= queue);
        assert(is_queue_of(queue, leaving(old(self)@, lock_ts.0, asked)));
        actions
    }

    /// Shows the wait-for graph to `viewer`.
    pub fn handle_dump<D>(&self, viewer: D) -> (action: Action<C, D>)
        ensures
            action matches Action::Report { viewer: v, entries } && v == viewer && is_dump(
                entries@,
                self@,
            ),
    {
        Action::Report { viewer, entries: self.wait_table.to_wait_for_entries() }
    }

    /// Answers a waiter that is part of a deadlock, unless it has been answered
    /// already.
    pub fn handle_deadlock(
        &mut self,
        start_ts: TimeStamp,
        lock: Lock,
        deadlock_key_hash: u64,
    ) -> (answer: Option<Answer<C>>)
        requires
            old(self).wf(),
            find_waiter(old(self)@, start_ts, lock) matches Some(w) ==> locked_by(w.pr) is Some,
        ensures
            final(self).wf(),
            final(self)@ == without_waiter(old(self)@, start_ts, lock),
            match (answer, find_waiter(old(self)@, start_ts, lock)) {
                (Some(a), Some(w)) => is_deadlock_answer(a, w, deadlock_key_hash),
                (None, None) => true,
                _ => false,
            },
            answer matches Some(a) ==> {
                &&& find_waiter(old(self)@, start_ts, lock) matches Some(w)
                &&& a.cb == w.cb
                &&& a.pr matches ProcessResult::Failed { err }
                &&& *err.0 matches StorageErrorInner::Txn(txn)
                &&& *txn.0 matches TxnErrorInner::Mvcc(mvcc)
                &&& *mvcc.0 matches MvccErrorInner::Deadlock {
                    start_ts: s,
                    lock_ts,
                    lock_key,
                    deadlock_key_hash: hash,
                }
                &&& s == start_ts
                &&& lock_ts == w.lock.ts
                &&& hash == deadlock_key_hash
                &&& w.pr matches ProcessResult::MultiRes { results }
                &&& results@.len() == 1
                &&& results@[0] matches Err(cause)
                &&& *cause.0 matches StorageErrorInner::Txn(txn_cause)
                &&& *txn_cause.0 matches TxnErrorInner::Mvcc(mvcc_cause)
                &&& *mvcc_cause.0 matches MvccErrorInner::KeyIsLocked(info)
                &&& lock_key@ == info.key@
            },
            final(self).same_setup(old(self)),
            answer is Some ==> takes_off(old(self).shared_count(), 1),
            final(self).released() == old(self).released() + if answer is Some {
                1int
            } else {
                0
            },
    {
        match self.wait_table.remove_waiter(start_ts, lock) {
            Some(waiter) => {
                let lock_key = vstd::slice::slice_to_vec(
                    extract_raw_key_from_process_result(&waiter.pr),
                );
                let mvcc_err = MvccError::from(
                    MvccErrorInner::Deadlock {
                        start_ts,
                        lock_ts: waiter.lock.ts,
                        lock_key,
                        deadlock_key_hash,
                    },
                );
                let pr = ProcessResult::Failed {
                    err: StorageError::from(TxnError::from(mvcc_err)),
                };
                proof {
                    lemma_found_waits(old(self)@, start_ts, lock);
                }
                Some(Answer { cb: waiter.cb, pr })
            },
            None => None,
        }
    }

    /// Whether `task` can be run: the delays of a wake-up can be told, and a
    /// transaction in a deadlock waits for a key that is known.
    pub open spec fn can_run<D>(&self, task: Task<C, D>) -> bool {
        match task {
            Task::WakeUp { lock_ts, hashes, commit_ts } => delays_fit(
                self.config().wake_up_delay_duration,
                leaving(self@, lock_ts.0, hashes@).len(),
            ),
            Task::Deadlock { start_ts, lock, deadlock_key_hash } => find_waiter(
                self@,
                start_ts,
                lock,
            ) matches Some(w) ==> locked_by(w.pr) is Some,
            _ => true,
        }
    }

    /// Whether [`WaiterManager::run`] can be asked to run `task`.
    pub fn accepts<D>(&self, task: &Task<C, D>) -> (ok: bool)
        ensures
            ok == self.can_run(*task),
    {
        match task {
            Task::WakeUp { lock_ts, hashes, .. } => {
                let n = self.wait_table.count_ready_waiters(*lock_ts, hashes);
                n == 0 || self.wake_up_delay_duration.checked_mul((n - 1) as u64).is_some()
            },
            Task::Deadlock { start_ts, lock, .. } => {
                match self.wait_table.find(*start_ts, *lock) {
                    Some(waiter) => has_raw_key(&waiter.pr),
                    None => true,
                }
            },
            _ => true,
        }
    }

    /// Does what `task` asks for and says what else is to be done.
    pub fn run<D>(&mut self, task: Task<C, D>) -> (actions: Vec<Action<C, D>>)
        requires
            old(self).wf(),
            old(self).can_run(task),
        ensures
            final(self).wf(),
            is_run(old(self).config(), old(self)@, task, final(self)@, actions@),
            final(self).same_setup(old(self)),
            left_by(old(self)@, task) > 0 ==> takes_off(
                old(self).shared_count(),
                left_by(old(self)@, task) as usize,
            ),
            final(self).released() == old(self).released() + left_by(old(self)@, task),
    {
        let mut actions: Vec<Action<C, D>> = Vec::new();
        match task {
            Task::WaitFor { start_ts, cb, pr, lock, timeout } => {
                actions.push(self.handle_wait_for(Waiter { start_ts, cb, pr, lock }, timeout));
            },
            Task::WakeUp { lock_ts, hashes, commit_ts } => {
                actions = self.handle_wake_up(lock_ts, hashes, commit_ts);
            },
            Task::Dump { cb } => {
                actions.push(self.handle_dump(cb));
            },
            Task::Deadlock { start_ts, lock, deadlock_key_hash } => {
                if let Some(answer) = self.handle_deadlock(start_ts, lock, deadlock_key_hash) {
                    actions.push(Action::Reply(answer));
                }
            },
        }
        actions
    }
}

} // verus!
