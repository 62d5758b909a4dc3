//! What holds of the waiter manager as a whole.
use crate::lemmas::{
    lemma_drain_filters, lemma_drain_ready, lemma_first_wait, lemma_gather_after_leaving,
    lemma_gather_contains, lemma_gather_len, lemma_gather_with_waiter, lemma_gather_without_waiter,
    lemma_no_wait, lemma_permuted_map, lemma_some_wait,
};
use crate::lock::{Lock, TimeStamp};
use crate::manager::{
    granted_timeout, is_dump, is_queue_of, is_run, is_wake_up, left_by, wakes_up, Action, Config,
};
use crate::model::{
    after_leaving, all_callbacks, drain_ready, find_waiter, first_wait, is_first_wait, is_ready,
    is_wait_of, leaving, no_empty_lists, population, waiting_for, with_waiter, without_waiter,
    Table,
};
use crate::scheduler::{settled, Stopped};
use crate::storage::ProcessResult;
use crate::task::Task;
use crate::waiter::{edge_of, Answer, WaitForEntry, Waiter};
use vstd::multiset::Multiset;
use vstd::prelude::*;

verus! {

broadcast use {
    vstd::multiset::group_multiset_axioms,
    vstd::seq_lib::group_to_multiset_ensures,
};

/// Nobody waits longer than is allowed; within that, everybody waits for as long
/// as they ask to.
pub proof fn law_timeout_is_bounded(timeout: u64, longest: u64)
    ensures
        granted_timeout(timeout, longest) <= longest,
        0 < timeout <= longest ==> granted_timeout(timeout, longest) == timeout,
        timeout == 0 ==> granted_timeout(timeout, longest) == longest,
{
}

/// A wake-up concerns those who wait for one of the keys, all of them and nobody
/// else. Whoever waits for another transaction does not notice.
pub proof fn law_wake_up_is_exact<C>(m: Table<C>, ts: u64, hashes: Seq<u64>)
    ensures
        leaving(m, ts, hashes).to_multiset() == waiting_for(m, ts).to_multiset().filter(
            |w: Waiter<C>| is_ready(w, hashes),
        ),
        waiting_for(after_leaving(m, ts, hashes), ts).to_multiset() == waiting_for(
            m,
            ts,
        ).to_multiset().filter(|w: Waiter<C>| !is_ready(w, hashes)),
        forall|other: u64|
            other != ts ==> waiting_for(after_leaving(m, ts, hashes), other) == waiting_for(
                m,
                other,
            ),
{
    lemma_drain_filters(waiting_for(m, ts), hashes);
    lemma_after_leaving_list(m, ts, hashes);
}

/// The list that a wake-up leaves behind.
proof fn lemma_after_leaving_list<C>(m: Table<C>, ts: u64, hashes: Seq<u64>)
    ensures
        waiting_for(after_leaving(m, ts, hashes), ts) == drain_ready(
            waiting_for(m, ts),
            0,
            hashes,
        ).1,
{
    let stay = drain_ready(waiting_for(m, ts), 0, hashes).1;
    if stay.len() == 0 {
        assert(stay =~= Seq::<Waiter<C>>::empty());
    }
}

/// Neither the order of the hashes nor how often one is named matters to a
/// wake-up.
pub proof fn law_hashes_are_a_set<C>(m: Table<C>, ts: u64, a: Seq<u64>, b: Seq<u64>)
    requires
        forall|x: u64| a.contains(x) == b.contains(x),
    ensures
        leaving(m, ts, a) == leaving(m, ts, b),
        after_leaving(m, ts, a) == after_leaving(m, ts, b),
{
    lemma_drain_same_members(waiting_for(m, ts), 0, a, b);
}

/// Draining goes by which hashes are named.
proof fn lemma_drain_same_members<C>(s: Seq<Waiter<C>>, from: int, a: Seq<u64>, b: Seq<u64>)
    requires
        0 <= from <= s.len(),
        forall|x: u64| a.contains(x) == b.contains(x),
    ensures
        drain_ready(s, from, a) == drain_ready(s, from, b),
    decreases s.len() - from,
{
    if from < s.len() {
        assert(is_ready(s[from], a) == is_ready(s[from], b));
        if is_ready(s[from], a) {
            lemma_drain_same_members(s.update(from, s.last()).drop_last(), from, a, b);
        } else {
            lemma_drain_same_members(s, from + 1, a, b);
        }
    }
}

/// A second wake-up on the same keys finds nobody and changes nothing.
pub proof fn law_second_wake_up_finds_nobody<C>(m: Table<C>, ts: u64, hashes: Seq<u64>)
    ensures
        leaving(after_leaving(m, ts, hashes), ts, hashes).len() == 0,
        after_leaving(after_leaving(m, ts, hashes), ts, hashes) == after_leaving(m, ts, hashes),
{
    let s = waiting_for(m, ts);
    let n = after_leaving(m, ts, hashes);
    let stay = waiting_for(n, ts);
    lemma_after_leaving_list(m, ts, hashes);
    lemma_drain_ready(s, 0, hashes);
    lemma_drain_nobody(stay, 0, hashes);
    assert(after_leaving(n, ts, hashes) =~= n);
}

/// Where nobody is ready, nobody leaves.
proof fn lemma_drain_nobody<C>(s: Seq<Waiter<C>>, from: int, hashes: Seq<u64>)
    requires
        0 <= from <= s.len(),
        forall|i: int| 0 <= i < s.len() ==> !is_ready(#[trigger] s[i], hashes),
    ensures
        drain_ready(s, from, hashes) == (Seq::<Waiter<C>>::empty(), s),
    decreases s.len() - from,
{
    if from < s.len() {
        lemma_drain_nobody(s, from + 1, hashes);
    }
}

/// A transaction that was woken up is gone: neither its timer nor the deadlock
/// detector finds it any more.
pub proof fn law_woken_up_is_gone<C>(
    m: Table<C>,
    start_ts: TimeStamp,
    lock: Lock,
    hashes: Seq<u64>,
)
    requires
        hashes.contains(lock.hash),
    ensures
        find_waiter(after_leaving(m, lock.ts.0, hashes), start_ts, lock) is None,
{
    let s = waiting_for(m, lock.ts.0);
    let stay = waiting_for(after_leaving(m, lock.ts.0, hashes), lock.ts.0);
    lemma_after_leaving_list(m, lock.ts.0, hashes);
    lemma_drain_ready(s, 0, hashes);
    assert forall|i: int| 0 <= i < stay.len() implies !is_wait_of(
        #[trigger] stay[i],
        start_ts,
        lock.hash,
    ) by {
        assert(!is_ready(stay[i], hashes));
    }
    lemma_no_wait(stay, start_ts, lock.hash);
}

/// Whoever was let wait is found.
pub proof fn law_added_is_found<C>(m: Table<C>, ts: u64, w: Waiter<C>)
    ensures
        find_waiter(
            with_waiter(m, ts, w),
            w.start_ts,
            Lock { ts: TimeStamp(ts), hash: w.lock.hash },
        ) is Some,
{
    let s = waiting_for(m, ts).push(w);
    lemma_some_wait(s, w.start_ts, w.lock.hash, s.len() - 1);
}

/// Removing a transaction that waits once undoes letting it wait.
pub proof fn law_removing_undoes_adding<C>(m: Table<C>, ts: u64, w: Waiter<C>)
    requires
        no_empty_lists(m),
        find_waiter(m, w.start_ts, Lock { ts: TimeStamp(ts), hash: w.lock.hash }) is None,
    ensures
        find_waiter(
            with_waiter(m, ts, w),
            w.start_ts,
            Lock { ts: TimeStamp(ts), hash: w.lock.hash },
        ) == Some(w),
        without_waiter(
            with_waiter(m, ts, w),
            w.start_ts,
            Lock { ts: TimeStamp(ts), hash: w.lock.hash },
        ) == m,
{
    let s = waiting_for(m, ts);
    let t = s.push(w);
    let last = t.len() - 1;
    assert forall|j: int| 0 <= j < last implies !is_wait_of(
        #[trigger] t[j],
        w.start_ts,
        w.lock.hash,
    ) by {
        if is_wait_of(s[j], w.start_ts, w.lock.hash) {
            lemma_some_wait(s, w.start_ts, w.lock.hash, j);
        }
    }
    lemma_first_wait(t, w.start_ts, w.lock.hash, last);
    assert(t.remove(last) =~= s);
    let lock = Lock { ts: TimeStamp(ts), hash: w.lock.hash };
    assert(without_waiter(with_waiter(m, ts, w), w.start_ts, lock) =~= m);
}

/// How often `start_ts` waits for `lock`.
pub open spec fn waits_of<C>(m: Table<C>, start_ts: TimeStamp, lock: Lock) -> nat {
    waiting_for(m, lock.ts.0).to_multiset().filter(
        |w: Waiter<C>| is_wait_of(w, start_ts, lock.hash),
    ).len()
}

/// A transaction is found as often as it waits: each removal takes one of its
/// waits away, and once none is left it is not found any more.
pub proof fn law_removed_once_for_each_wait<C>(m: Table<C>, start_ts: TimeStamp, lock: Lock)
    ensures
        find_waiter(m, start_ts, lock) is Some <==> waits_of(m, start_ts, lock) > 0,
        find_waiter(m, start_ts, lock) is Some ==> waits_of(
            without_waiter(m, start_ts, lock),
            start_ts,
            lock,
        ) + 1 == waits_of(m, start_ts, lock),
        find_waiter(m, start_ts, lock) is None ==> without_waiter(m, start_ts, lock) == m,
{
    let s = waiting_for(m, lock.ts.0);
    let p = |w: Waiter<C>| is_wait_of(w, start_ts, lock.hash);
    let waits = s.to_multiset().filter(p);
    match first_wait(s, start_ts, lock.hash) {
        Some(i) => {
            assert(is_first_wait(s, start_ts, lock.hash, i));
            assert(s.contains(s[i]));
            assert(waits.count(s[i]) > 0);
            let n = without_waiter(m, start_ts, lock);
            if s.remove(i).len() == 0 {
                assert(s.remove(i) =~= Seq::<Waiter<C>>::empty());
            }
            assert(waiting_for(n, lock.ts.0) == s.remove(i));
            vstd::seq_lib::to_multiset_remove(s, i);
            assert(s.remove(i).to_multiset().filter(p).insert(s[i]) =~= waits);
        },
        None => {
            if waits.len() > 0 {
                let w = waits.choose();
                assert(waits.count(w) > 0);
                assert(s.contains(w));
                let i = choose|i: int| 0 <= i < s.len() && s[i] == w;
                lemma_some_wait(s, start_ts, lock.hash, i);
            }
        },
    }
}

/// What happens to those who wait for one transaction does not concern those who
/// wait for another.
pub proof fn law_lists_are_independent<C>(
    m: Table<C>,
    w: Waiter<C>,
    start_ts: TimeStamp,
    lock: Lock,
    other: u64,
)
    requires
        other != lock.ts.0,
    ensures
        waiting_for(with_waiter(m, lock.ts.0, w), other) == waiting_for(m, other),
        waiting_for(without_waiter(m, start_ts, lock), other) == waiting_for(m, other),
{
}

/// A dump has one edge for each waiter, and an edge is in it just in case someone
/// waits that way.
pub proof fn law_dump_shows_everybody<C>(entries: Seq<WaitForEntry>, m: Table<C>)
    requires
        m.dom().finite(),
        is_dump(entries, m),
    ensures
        entries.len() == population(m),
        forall|e: WaitForEntry| #[trigger]
            entries.contains(e) <==> exists|ts: u64, i: int|
                #![trigger m[ts][i]]
                m.contains_key(ts) && 0 <= i < m[ts].len() && edge_of(m[ts][i]) == e,
{
    let edge = |w: Waiter<C>| edge_of(w);
    lemma_gather_len(m, edge, |w: Waiter<C>| w);
    assert forall|e: WaitForEntry| #[trigger]
        entries.contains(e) <==> exists|ts: u64, i: int|
            #![trigger m[ts][i]]
            m.contains_key(ts) && 0 <= i < m[ts].len() && edge_of(m[ts][i]) == e by {
        lemma_gather_contains(m, edge, e);
    }
}

/// Where wake-ups are delayed, whoever started earlier is woken up earlier, the
/// first one without any delay.
pub proof fn law_earlier_transactions_wake_up_earlier<C, D>(
    actions: Seq<Action<C, D>>,
    queue: Seq<Waiter<C>>,
    s: Seq<Waiter<C>>,
    delay: u64,
    commit_ts: TimeStamp,
    i: int,
    j: int,
)
    requires
        is_queue_of(queue, s),
        wakes_up(actions, queue, delay, commit_ts),
        delay > 0,
        0 <= i < j < s.len(),
    ensures
        actions[2 * i + 1] matches Action::WakeUpAfter { delay: first, waiter: a, .. }
            && actions[2 * j + 1] matches Action::WakeUpAfter { delay: second, waiter: b, .. }
            && first < second && a.start_ts.0 <= b.start_ts.0 && (i == 0 ==> first == 0),
{
    assert(queue.to_multiset().len() == s.to_multiset().len());
    let a = queue[i];
    let b = queue[j];
    assert(delay * i < delay * j) by (nonlinear_arith)
        requires
            delay > 0,
            i < j,
    ;
}

/// Whoever cannot be let wait is called back with the result they came with.
pub proof fn law_refused_wait_is_answered<C, D>(
    start_ts: TimeStamp,
    cb: C,
    pr: ProcessResult,
    lock: Lock,
    timeout: u64,
)
    ensures
        settled(
            Err::<(), Stopped<Task<C, D>>>(
                Stopped(Task::WaitFor { start_ts, cb, pr, lock, timeout }),
            ),
        ).refused == Some(Answer { cb, pr }),
{
}

/// The callback that `task` brings along.
pub open spec fn callback_of_task<C, D>(task: Task<C, D>) -> Multiset<C> {
    match task {
        Task::WaitFor { start_ts, cb, pr, lock, timeout } => Multiset::singleton(cb),
        _ => Multiset::empty(),
    }
}

/// The callback that `action` sees to.
pub open spec fn callback_of_action<C, D>(action: Action<C, D>) -> Multiset<C> {
    match action {
        Action::Reply(answer) => Multiset::singleton(answer.cb),
        Action::WakeUpAfter { delay, waiter, commit_ts } => Multiset::singleton(waiter.cb),
        _ => Multiset::empty(),
    }
}

/// The callbacks that `actions` see to.
pub open spec fn callbacks_of_actions<C, D>(actions: Seq<Action<C, D>>) -> Multiset<C>
    decreases actions.len(),
{
    if actions.len() == 0 {
        Multiset::empty()
    } else {
        callbacks_of_actions(actions.drop_last()).add(callback_of_action(actions.last()))
    }
}

/// Waking up a queue sees to the callbacks in it.
proof fn lemma_wakes_up_callbacks<C, D>(
    actions: Seq<Action<C, D>>,
    queue: Seq<Waiter<C>>,
    delay: u64,
    commit_ts: TimeStamp,
)
    requires
        wakes_up(actions, queue, delay, commit_ts),
    ensures
        callbacks_of_actions(actions) == queue.map_values(|w: Waiter<C>| w.cb).to_multiset(),
    decreases queue.len(),
{
    let cb = |w: Waiter<C>| w.cb;
    if queue.len() == 0 {
        assert(queue.map_values(cb) =~= Seq::<C>::empty());
    } else {
        let last = queue.len() - 1;
        let before = queue.drop_last();
        let earlier = actions.take(2 * last);
        assert forall|i: int|
            #![trigger before[i]]
            0 <= i < before.len() implies earlier[2 * i] == (Action::<C, D>::CleanUpWaitFor {
            start_ts: before[i].start_ts,
            lock: before[i].lock,
        }) && is_wake_up(
            earlier[2 * i + 1],
            before[i],
            i,
            delay,
            commit_ts,
        ) by {
            assert(before[i] == queue[i]);
        }
        lemma_wakes_up_callbacks(earlier, before, delay, commit_ts);
        let w = queue[last];
        assert(actions.drop_last().drop_last() =~= earlier);
        assert(actions.drop_last().last() == actions[2 * last]);
        assert(actions.last() == actions[2 * last + 1]);
        assert(queue.map_values(cb) =~= before.map_values(cb).push(w.cb));
        assert(callbacks_of_actions(actions.drop_last()) =~= callbacks_of_actions(earlier));
        assert(callbacks_of_actions(actions) =~= queue.map_values(cb).to_multiset());
    }
}

/// Running a task neither loses nor doubles a callback: those that waited or came
/// with the task either wait now or are seen to. As many are
/// seen to as waiters leave the table, which is the amount that `run` asks to be
/// taken off the shared number.
pub proof fn law_run_keeps_every_callback<C, D>(
    cfg: Config,
    m: Table<C>,
    task: Task<C, D>,
    n: Table<C>,
    actions: Seq<Action<C, D>>,
)
    requires
        m.dom().finite(),
        is_run(cfg, m, task, n, actions),
    ensures
        n.dom().finite(),
        all_callbacks(m).add(callback_of_task(task)) == all_callbacks(n).add(
            callbacks_of_actions(actions),
        ),
        callbacks_of_actions(actions).len() == left_by(m, task),
        population(n) + left_by(m, task) == population(m) + callback_of_task(task).len(),
{
    let cb = |w: Waiter<C>| w.cb;
    match task {
        Task::WaitFor { start_ts, cb: c, pr, lock, timeout } => {
            lemma_gather_with_waiter(m, lock.ts.0, Waiter { start_ts, cb: c, pr, lock }, cb);
            reveal_with_fuel(callbacks_of_actions, 2);
            assert(all_callbacks(m).add(callback_of_task(task)) =~= all_callbacks(n).add(
                callbacks_of_actions(actions),
            ));
        },
        Task::WakeUp { lock_ts, hashes, commit_ts } => {
            let out = leaving(m, lock_ts.0, hashes@);
            let queue = choose|queue: Seq<Waiter<C>>| #[trigger]
                is_queue_of(queue, out) && wakes_up(
                    actions,
                    queue,
                    cfg.wake_up_delay_duration,
                    commit_ts,
                );
            lemma_gather_after_leaving(m, lock_ts.0, hashes@, cb);
            lemma_wakes_up_callbacks(actions, queue, cfg.wake_up_delay_duration, commit_ts);
            lemma_permuted_map(queue, out, cb);
            assert(out.map_values(cb).len() == out.len());
            assert(all_callbacks(m).add(callback_of_task(task)) =~= all_callbacks(n).add(
                callbacks_of_actions(actions),
            ));
        },
        Task::Dump { cb: c } => {
            reveal_with_fuel(callbacks_of_actions, 2);
            assert(callbacks_of_actions(actions) =~= Multiset::<C>::empty());
        },
        Task::Deadlock { start_ts, lock, deadlock_key_hash } => {
            lemma_gather_without_waiter(m, start_ts, lock, cb);
            reveal_with_fuel(callbacks_of_actions, 2);
            if let Some(w) = find_waiter(m, start_ts, lock) {
                assert(callbacks_of_actions(actions) =~= Multiset::singleton(w.cb));
            }
            assert(all_callbacks(m).add(callback_of_task(task)) =~= all_callbacks(n).add(
                callbacks_of_actions(actions),
            ));
        },
    }
    lemma_gather_len(m, cb, |w: Waiter<C>| w);
    lemma_gather_len(n, cb, |w: Waiter<C>| w);
    assert(all_callbacks(m).add(callback_of_task(task)).len() == all_callbacks(n).add(
        callbacks_of_actions(actions),
    ).len());
}

/// A timer that goes off neither loses nor doubles a callback.
pub proof fn law_timeout_keeps_every_callback<C>(m: Table<C>, start_ts: TimeStamp, lock: Lock)
    requires
        m.dom().finite(),
    ensures
        all_callbacks(m) == all_callbacks(without_waiter(m, start_ts, lock)).add(
            callback_of_timeout(m, start_ts, lock),
        ),
        population(m) == population(without_waiter(m, start_ts, lock)) + callback_of_timeout(
            m,
            start_ts,
            lock,
        ).len(),
{
    let cb = |w: Waiter<C>| w.cb;
    let n = without_waiter(m, start_ts, lock);
    lemma_gather_without_waiter(m, start_ts, lock, cb);
    assert(all_callbacks(m) =~= all_callbacks(n).add(callback_of_timeout(m, start_ts, lock)));
    lemma_gather_len(m, cb, |w: Waiter<C>| w);
    lemma_gather_len(n, cb, |w: Waiter<C>| w);
}

/// The callback that a timer sees to when it goes off.
pub open spec fn callback_of_timeout<C>(
    m: Table<C>,
    start_ts: TimeStamp,
    lock: Lock,
) -> Multiset<C> {
    match find_waiter(m, start_ts, lock) {
        Some(w) => Multiset::singleton(w.cb),
        None => Multiset::empty(),
    }
}

/// One thing that happens to the waiter manager.
pub enum Step<C, D> {
    /// It ran a task.
    Ran { task: Task<C, D>, actions: Seq<Action<C, D>> },
    /// A timer went off.
    Expired { start_ts: TimeStamp, lock: Lock },
}

/// Whether `step` leads from the table `m` to the table `n`.
pub open spec fn is_step<C, D>(cfg: Config, m: Table<C>, step: Step<C, D>, n: Table<C>) -> bool {
    match step {
        Step::Ran { task, actions } => is_run(cfg, m, task, n, actions),
        Step::Expired { start_ts, lock } => n == without_waiter(m, start_ts, lock),
    }
}

/// The callbacks that came in during `steps`.
pub open spec fn brought_in<C, D>(steps: Seq<Step<C, D>>) -> Multiset<C>
    decreases steps.len(),
{
    if steps.len() == 0 {
        Multiset::empty()
    } else {
        brought_in(steps.drop_last()).add(
            match steps.last() {
                Step::Ran { task, actions } => callback_of_task(task),
                Step::Expired { start_ts, lock } => Multiset::empty(),
            },
        )
    }
}

/// The callbacks that were seen to during `steps`, which led through `tables`.
pub open spec fn seen_to<C, D>(tables: Seq<Table<C>>, steps: Seq<Step<C, D>>) -> Multiset<C>
    decreases steps.len(),
{
    if steps.len() == 0 {
        Multiset::empty()
    } else {
        seen_to(tables.drop_last(), steps.drop_last()).add(
            match steps.last() {
                Step::Ran { task, actions } => callbacks_of_actions(actions),
                Step::Expired { start_ts, lock } => callback_of_timeout(
                    tables[steps.len() - 1],
                    start_ts,
                    lock,
                ),
            },
        )
    }
}

/// Whatever happens to a manager that nobody waited at to begin with, each
/// callback that came in waits or has been seen to, once.
pub proof fn law_every_callback_is_seen_to_once<C, D>(
    cfg: Config,
    tables: Seq<Table<C>>,
    steps: Seq<Step<C, D>>,
)
    requires
        tables.len() == steps.len() + 1,
        tables[0] == Map::<u64, Seq<Waiter<C>>>::empty(),
        forall|i: int|
            #![trigger steps[i]]
            0 <= i < steps.len() ==> is_step(cfg, tables[i], steps[i], tables[i + 1]),
    ensures
        tables.last().dom().finite(),
        brought_in(steps) == all_callbacks(tables.last()).add(seen_to(tables, steps)),
    decreases steps.len(),
{
    if steps.len() == 0 {
        assert(brought_in(steps) =~= all_callbacks(tables.last()).add(seen_to(tables, steps)));
    } else {
        let earlier = steps.drop_last();
        let before = tables.drop_last();
        assert forall|i: int| #![trigger earlier[i]]
            0 <= i < earlier.len() implies is_step(
            cfg,
            before[i],
            earlier[i],
            before[i + 1],
        ) by {
            assert(earlier[i] == steps[i]);
        }
        law_every_callback_is_seen_to_once(cfg, before, earlier);
        let m = before.last();
        let n = tables.last();
        let last = steps.len() - 1;
        assert(is_step(cfg, tables[last], steps[last], tables[last + 1]));
        match steps.last() {
            Step::Ran { task, actions } => {
                law_run_keeps_every_callback(cfg, m, task, n, actions);
                assert forall|c: C| #[trigger] brought_in(steps).count(c) == all_callbacks(n).add(
                    seen_to(tables, steps),
                ).count(c) by {
                    assert(all_callbacks(m).add(callback_of_task(task)).count(c) == all_callbacks(
                        n,
                    ).add(callbacks_of_actions(actions)).count(c));
                }
            },
            Step::Expired { start_ts, lock } => {
                law_timeout_keeps_every_callback(m, start_ts, lock);
                lemma_gather_without_waiter(m, start_ts, lock, |w: Waiter<C>| w.cb);
            },
        }
        assert(brought_in(steps) =~= all_callbacks(n).add(seen_to(tables, steps)));
    }
}

/// How many timers `actions` set for `start_ts` waiting for `lock`.
pub open spec fn timers_set<C, D>(
    actions: Seq<Action<C, D>>,
    start_ts: TimeStamp,
    lock: Lock,
) -> nat
    decreases actions.len(),
{
    if actions.len() == 0 {
        0
    } else {
        timers_set(actions.drop_last(), start_ts, lock) + match actions.last() {
            Action::ExpireAfter { delay, start_ts: s, lock: l } => if s == start_ts && l == lock {
                1nat
            } else {
                0nat
            },
            _ => 0nat,
        }
    }
}

/// How many timers for `start_ts` waiting for `lock` have been set during `steps`
/// and have not gone off.
pub open spec fn timers_pending<C, D>(
    steps: Seq<Step<C, D>>,
    start_ts: TimeStamp,
    lock: Lock,
) -> int
    decreases steps.len(),
{
    if steps.len() == 0 {
        0
    } else {
        timers_pending(steps.drop_last(), start_ts, lock) + match steps.last() {
            Step::Ran { task, actions } => timers_set(actions, start_ts, lock) as int,
            Step::Expired { start_ts: s, lock: l } => if s == start_ts && l == lock {
                -1int
            } else {
                0int
            },
        }
    }
}

/// Fewer waiters mean no more waits.
proof fn lemma_fewer_waits<C>(
    a: Seq<Waiter<C>>,
    b: Seq<Waiter<C>>,
    p: spec_fn(Waiter<C>) -> bool,
)
    requires
        forall|w: Waiter<C>| #[trigger]
            a.to_multiset().count(w) <= b.to_multiset().count(w),
    ensures
        a.to_multiset().filter(p).len() <= b.to_multiset().filter(p).len(),
{
    let x = a.to_multiset().filter(p);
    let y = b.to_multiset().filter(p);
    assert(x.add(y.sub(x)) =~= y);
}

/// No step lets a transaction wait without setting a timer for it.
proof fn lemma_step_waits<C, D>(
    cfg: Config,
    m: Table<C>,
    step: Step<C, D>,
    n: Table<C>,
    start_ts: TimeStamp,
    lock: Lock,
)
    requires
        is_step(cfg, m, step, n),
    ensures
        match step {
            Step::Ran { task, actions } => waits_of(n, start_ts, lock) <= waits_of(
                m,
                start_ts,
                lock,
            ) + timers_set(actions, start_ts, lock),
            Step::Expired { start_ts: s, lock: l } => if s == start_ts && l == lock && waits_of(
                m,
                start_ts,
                lock,
            ) > 0 {
                waits_of(n, start_ts, lock) + 1 == waits_of(m, start_ts, lock)
            } else {
                waits_of(n, start_ts, lock) <= waits_of(m, start_ts, lock)
            },
        },
{
    let p = |w: Waiter<C>| is_wait_of(w, start_ts, lock.hash);
    let a = waiting_for(m, lock.ts.0);
    let b = waiting_for(n, lock.ts.0);
    match step {
        Step::Ran { task, actions } => match task {
            Task::WaitFor { start_ts: s, cb, pr, lock: l, timeout } => {
                let w = Waiter { start_ts: s, cb, pr, lock: l };
                reveal_with_fuel(timers_set, 2);
                if l.ts.0 == lock.ts.0 {
                    assert(b == a.push(w));
                    if p(w) {
                        assert(l == lock);
                        assert(b.to_multiset().filter(p) =~= a.to_multiset().filter(p).insert(w));
                    } else {
                        assert(b.to_multiset().filter(p) =~= a.to_multiset().filter(p));
                    }
                }
            },
            Task::WakeUp { lock_ts, hashes, commit_ts } => {
                law_wake_up_is_exact(m, lock_ts.0, hashes@);
                lemma_fewer_waits(b, a, p);
            },
            Task::Dump { cb } => {},
            Task::Deadlock { start_ts: s, lock: l, deadlock_key_hash } => {
                lemma_removed_waits(m, s, l, lock.ts.0);
                lemma_fewer_waits(b, a, p);
            },
        },
        Step::Expired { start_ts: s, lock: l } => {
            lemma_removed_waits(m, s, l, lock.ts.0);
            lemma_fewer_waits(b, a, p);
            law_removed_once_for_each_wait(m, start_ts, lock);
        },
    }
}

/// Removing a waiter adds nobody to any list.
proof fn lemma_removed_waits<C>(m: Table<C>, start_ts: TimeStamp, lock: Lock, ts: u64)
    ensures
        forall|w: Waiter<C>| #[trigger]
            waiting_for(without_waiter(m, start_ts, lock), ts).to_multiset().count(w)
                <= waiting_for(m, ts).to_multiset().count(w),
{
    let s = waiting_for(m, lock.ts.0);
    let n = without_waiter(m, start_ts, lock);
    if let Some(i) = first_wait(s, start_ts, lock.hash) {
        assert(is_first_wait(s, start_ts, lock.hash, i));
        vstd::seq_lib::to_multiset_remove(s, i);
        if s.remove(i).len() == 0 {
            assert(s.remove(i) =~= Seq::<Waiter<C>>::empty());
        }
        assert(waiting_for(n, lock.ts.0) == s.remove(i));
    }
}

/// Nobody waits forever: a transaction waits for a lock at most as often as there
/// are timers for it that have not gone off. A timer goes off only where one has
/// been set.
pub proof fn law_nobody_waits_without_a_timer<C, D>(
    cfg: Config,
    tables: Seq<Table<C>>,
    steps: Seq<Step<C, D>>,
    start_ts: TimeStamp,
    lock: Lock,
)
    requires
        tables.len() == steps.len() + 1,
        tables[0] == Map::<u64, Seq<Waiter<C>>>::empty(),
        forall|i: int|
            #![trigger steps[i]]
            0 <= i < steps.len() ==> is_step(cfg, tables[i], steps[i], tables[i + 1]),
        forall|i: int|
            #![trigger steps[i]]
            0 <= i < steps.len() && steps[i] == (Step::<C, D>::Expired { start_ts, lock })
                ==> timers_pending(steps.take(i), start_ts, lock) > 0,
    ensures
        waits_of(tables.last(), start_ts, lock) <= timers_pending(steps, start_ts, lock),
    decreases steps.len(),
{
    if steps.len() == 0 {
        let p = |w: Waiter<C>| is_wait_of(w, start_ts, lock.hash);
        let nobody = waiting_for(tables.last(), lock.ts.0);
        assert(nobody.to_multiset().filter(p) =~= Multiset::<Waiter<C>>::empty());
    } else {
        let earlier = steps.drop_last();
        let before = tables.drop_last();
        let last = steps.len() - 1;
        assert forall|i: int| #![trigger earlier[i]]
            0 <= i < earlier.len() implies is_step(
            cfg,
            before[i],
            earlier[i],
            before[i + 1],
        ) by {
            assert(earlier[i] == steps[i]);
        }
        assert forall|i: int| #![trigger earlier[i]]
            0 <= i < earlier.len() && earlier[i] == (Step::<C, D>::Expired {
            start_ts,
            lock,
        }) implies timers_pending(earlier.take(i), start_ts, lock) > 0 by {
            assert(earlier[i] == steps[i]);
            assert(earlier.take(i) =~= steps.take(i));
        }
        law_nobody_waits_without_a_timer(cfg, before, earlier, start_ts, lock);
        assert(is_step(cfg, tables[last], steps[last], tables[last + 1]));
        assert(steps.take(last) =~= earlier);
        lemma_step_waits(cfg, before.last(), steps.last(), tables.last(), start_ts, lock);
    }
}

} // verus!
