//! What each operation comes to, field by field: who leaves, who stays, what is
//! said to whom and when.
use crate::decimal::decimal;
use crate::lemmas::{
    lemma_drain_filters, lemma_drain_ready, lemma_gather_contains, lemma_gather_split,
    lemma_map_identity, lemma_some_wait,
};
use crate::lock::{Lock, TimeStamp};
use crate::manager::{
    granted_timeout, is_deadlock_answer, is_dump, is_queue_of, is_run, is_wake_up_answer, left_by,
    wakes_up, Action, Config, WaiterManager,
};
use crate::model::{
    after_leaving, all_callbacks, all_waiters, along, drain_ready, find_waiter, first_wait,
    is_first_wait, is_wait_of, is_walk, leaving, population, waiting_for, with_waiter,
    without_waiter, Table,
};
use crate::scheduler::{settled, Notice, Scheduler, Stopped};
use crate::storage::{
    locked_by, mvcc_cause, LockInfo, MvccError, MvccErrorInner, ProcessResult, StorageError,
    StorageErrorInner, TxnError, TxnErrorInner,
};
use crate::task::{display_of, Task};
use crate::wait_table::WaitTable;
use crate::waiter::{edge_of, Answer, WaitForEntry, Waiter};
use crate::waiter_count::takes_off;
use std::sync::atomic::{AtomicUsize, Ordering};
use std::sync::Arc;
use vstd::multiset::Multiset;
use vstd::prelude::*;
use vstd::std_specs::convert::FromSpec;

verus! {

broadcast use {
    vstd::multiset::group_multiset_axioms,
    vstd::seq_lib::group_to_multiset_ensures,
};

/// Letting a transaction wait puts it behind those who wait for the same holder,
/// and touches nobody else.
pub proof fn law_a_new_waiter_comes_last<C>(m: Table<C>, ts: u64, w: Waiter<C>)
    ensures
        with_waiter(m, ts, w).dom() == m.dom().insert(ts),
        m.contains_key(ts) ==> with_waiter(m, ts, w)[ts] == m[ts].push(w),
        !m.contains_key(ts) ==> with_waiter(m, ts, w)[ts] == seq![w],
        forall|other: u64|
            other != ts && m.contains_key(other) ==> #[trigger] with_waiter(m, ts, w)[other]
                == m[other],
{
    assert(Seq::<Waiter<C>>::empty().push(w) =~= seq![w]);
    assert(with_waiter(m, ts, w).dom() =~= m.dom().insert(ts));
}

/// A wake-up takes out a waiter, as often as it is listed, just in case the hash of
/// its key is among those named; every other waiter stays, and nobody is listed
/// who was not.
pub proof fn law_a_wake_up_goes_by_the_hashes<C>(m: Table<C>, ts: u64, hashes: Seq<u64>)
    ensures
        forall|w: Waiter<C>| #[trigger]
            leaving(m, ts, hashes).to_multiset().count(w) == if m.contains_key(ts)
                && hashes.contains(w.lock.hash) {
                m[ts].to_multiset().count(w)
            } else {
                0
            },
        forall|w: Waiter<C>| #[trigger]
            leaving(m, ts, hashes).contains(w) <==> m.contains_key(ts) && m[ts].contains(w)
                && hashes.contains(w.lock.hash),
        after_leaving(m, ts, hashes).contains_key(ts) ==> m.contains_key(ts) && after_leaving(
            m,
            ts,
            hashes,
        )[ts].len() > 0,
        after_leaving(m, ts, hashes).contains_key(ts) ==> forall|w: Waiter<C>| #[trigger]
            after_leaving(m, ts, hashes)[ts].to_multiset().count(w) == if hashes.contains(
                w.lock.hash,
            ) {
                0
            } else {
                m[ts].to_multiset().count(w)
            },
        m.contains_key(ts) && !after_leaving(m, ts, hashes).contains_key(ts) ==> forall|i: int|
            0 <= i < m[ts].len() ==> hashes.contains(#[trigger] m[ts][i].lock.hash),
        forall|i: int|
            m.contains_key(ts) && 0 <= i < m[ts].len() && !hashes.contains(
                #[trigger] m[ts][i].lock.hash,
            ) ==> after_leaving(m, ts, hashes).contains_key(ts) && after_leaving(
                m,
                ts,
                hashes,
            )[ts].contains(m[ts][i]),
        forall|other: u64|
            other != ts ==> after_leaving(m, ts, hashes).contains_key(other) == m.contains_key(
                other,
            ),
        forall|other: u64|
            other != ts && m.contains_key(other) ==> #[trigger] after_leaving(
                m,
                ts,
                hashes,
            )[other] == m[other],
{
    let s = waiting_for(m, ts);
    let (out, stay) = drain_ready(s, 0, hashes);
    let n = after_leaving(m, ts, hashes);
    lemma_drain_filters(s, hashes);
    assert(m.contains_key(ts) ==> s == m[ts]);
    assert forall|w: Waiter<C>| #[trigger]
        leaving(m, ts, hashes).to_multiset().count(w) == if m.contains_key(ts)
            && hashes.contains(w.lock.hash) {
            m[ts].to_multiset().count(w)
        } else {
            0
        } by {
        assert(out == leaving(m, ts, hashes));
        assert(!m.contains_key(ts) ==> !s.contains(w));
        vstd::seq_lib::to_multiset_contains(s, w);
    }
    assert forall|w: Waiter<C>| #[trigger]
        leaving(m, ts, hashes).contains(w) <==> m.contains_key(ts) && m[ts].contains(w)
            && hashes.contains(w.lock.hash) by {
        vstd::seq_lib::to_multiset_contains(out, w);
        vstd::seq_lib::to_multiset_contains(s, w);
        assert(leaving(m, ts, hashes).to_multiset().count(w) == out.to_multiset().count(w));
    }
    assert forall|i: int|
        m.contains_key(ts) && 0 <= i < m[ts].len() && !hashes.contains(
            #[trigger] m[ts][i].lock.hash,
        ) implies n.contains_key(ts) && n[ts].contains(m[ts][i]) by {
        let w = m[ts][i];
        assert(s.contains(w));
        vstd::seq_lib::to_multiset_contains(s, w);
        vstd::seq_lib::to_multiset_contains(stay, w);
        assert(stay.to_multiset().count(w) > 0);
    }
    if !m.contains_key(ts) {
        lemma_drain_ready(s, 0, hashes);
    }
}

/// Looking at the list one place further on is looking at the rest of it.
proof fn lemma_drain_shift<C>(s: Seq<Waiter<C>>, from: int, hashes: Seq<u64>)
    requires
        0 <= from < s.len(),
    ensures
        drain_ready(s, from + 1, hashes).0 == drain_ready(s.drop_first(), from, hashes).0,
        drain_ready(s, from + 1, hashes).1 == seq![s[0]] + drain_ready(
            s.drop_first(),
            from,
            hashes,
        ).1,
    decreases s.len() - from,
{
    let rest = s.drop_first();
    if from + 1 >= s.len() {
        assert(s =~= seq![s[0]] + rest);
    } else {
        assert(rest[from] == s[from + 1]);
        let next = s.update(from + 1, s.last()).drop_last();
        assert(next.drop_first() =~= rest.update(from, rest.last()).drop_last());
        assert(next[0] == s[0]);
        if hashes.contains(s[from + 1].lock.hash) {
            lemma_drain_shift(next, from, hashes);
        } else {
            lemma_drain_shift(s, from + 1, hashes);
        }
    }
}

/// In what order a wake-up works: whoever is listed first leaves first if the hash
/// of its key is named, and the one listed last moves up to its place; else it
/// keeps its place in front of what becomes of the others. Of nobody, nobody
/// leaves.
pub proof fn law_a_wake_up_works_from_the_front<C>(m: Table<C>, ts: u64, hashes: Seq<u64>)
    ensures
        !m.contains_key(ts) ==> leaving(m, ts, hashes).len() == 0 && after_leaving(
            m,
            ts,
            hashes,
        ) == m,
        m.contains_key(ts) && m[ts].len() == 0 ==> leaving(m, ts, hashes).len() == 0
            && after_leaving(m, ts, hashes) == m.remove(ts),
        m.contains_key(ts) && m[ts].len() > 0 && hashes.contains(m[ts][0].lock.hash) ==> {
            let others = m.insert(ts, m[ts].update(0, m[ts].last()).drop_last());
            &&& leaving(m, ts, hashes) == seq![m[ts][0]] + leaving(others, ts, hashes)
            &&& after_leaving(m, ts, hashes) == after_leaving(others, ts, hashes)
        },
        m.contains_key(ts) && m[ts].len() > 0 && !hashes.contains(m[ts][0].lock.hash) ==> {
            let others = m.insert(ts, m[ts].drop_first());
            let rest = after_leaving(others, ts, hashes);
            &&& leaving(m, ts, hashes) == leaving(others, ts, hashes)
            &&& after_leaving(m, ts, hashes) == m.insert(
                ts,
                seq![m[ts][0]] + if rest.contains_key(ts) {
                    rest[ts]
                } else {
                    Seq::empty()
                },
            )
        },
{
    let s = waiting_for(m, ts);
    if !m.contains_key(ts) {
        assert(after_leaving(m, ts, hashes) =~= m);
    } else if s.len() > 0 {
        if hashes.contains(s[0].lock.hash) {
            let others = m.insert(ts, s.update(0, s.last()).drop_last());
            assert(after_leaving(m, ts, hashes) =~= after_leaving(others, ts, hashes));
        } else {
            let others = m.insert(ts, s.drop_first());
            let rest = after_leaving(others, ts, hashes);
            lemma_drain_shift(s, 0, hashes);
            let stay = drain_ready(s.drop_first(), 0, hashes).1;
            if stay.len() == 0 {
                assert(stay =~= Seq::<Waiter<C>>::empty());
            }
            assert(after_leaving(m, ts, hashes) =~= m.insert(ts, seq![s[0]] + stay));
        }
    }
}

/// A removal takes out the first waiter listed under the holder of the lock whose
/// transaction and key hash are those asked for, and closes the gap; where there is
/// none, nothing changes. A holder that nobody waits for any more is not listed.
pub proof fn law_a_removal_takes_the_first_match<C>(
    m: Table<C>,
    start_ts: TimeStamp,
    lock: Lock,
)
    ensures
        find_waiter(m, start_ts, lock) is None ==> without_waiter(m, start_ts, lock) == m
            && forall|i: int|
            m.contains_key(lock.ts.0) && 0 <= i < m[lock.ts.0].len() ==> (
            #[trigger] m[lock.ts.0][i]).start_ts != start_ts || m[lock.ts.0][i].lock.hash
                != lock.hash,
        find_waiter(m, start_ts, lock) matches Some(w) ==> {
            &&& m.contains_key(lock.ts.0)
            &&& w.start_ts == start_ts
            &&& w.lock.hash == lock.hash
            &&& exists|i: int|
                {
                    &&& 0 <= i < m[lock.ts.0].len()
                    &&& #[trigger] m[lock.ts.0][i] == w
                    &&& forall|j: int|
                        0 <= j < i ==> (#[trigger] m[lock.ts.0][j]).start_ts != start_ts
                            || m[lock.ts.0][j].lock.hash != lock.hash
                    &&& m[lock.ts.0].len() > 1 ==> without_waiter(m, start_ts, lock) == m.insert(
                        lock.ts.0,
                        m[lock.ts.0].remove(i),
                    )
                    &&& m[lock.ts.0].len() == 1 ==> without_waiter(m, start_ts, lock)
                        == m.remove(lock.ts.0)
                }
        },
{
    let s = waiting_for(m, lock.ts.0);
    match first_wait(s, start_ts, lock.hash) {
        Some(i) => {
            assert(is_first_wait(s, start_ts, lock.hash, i));
            assert(m.contains_key(lock.ts.0));
            assert(m[lock.ts.0][i] == s[i]);
            assert forall|j: int| 0 <= j < i implies (#[trigger] m[lock.ts.0][j]).start_ts
                != start_ts || m[lock.ts.0][j].lock.hash != lock.hash by {
                assert(!is_wait_of(s[j], start_ts, lock.hash));
            }
        },
        None => {
            assert forall|i: int| m.contains_key(lock.ts.0) && 0 <= i < m[lock.ts.0].len() implies (
            #[trigger] m[lock.ts.0][i]).start_ts != start_ts || m[lock.ts.0][i].lock.hash
                != lock.hash by {
                if is_wait_of(s[i], start_ts, lock.hash) {
                    lemma_some_wait(s, start_ts, lock.hash, i);
                }
            }
        },
    }
}

/// A walk meets the lists one after the other.
pub proof fn law_a_walk_goes_list_by_list<C>(m: Table<C>, order: Seq<u64>)
    ensures
        along(m, order) == order.map_values(|ts: u64| m[ts]).flatten(),
        is_walk(m, order) <==> order.no_duplicates() && order.to_set() == m.dom(),
    decreases order.len(),
{
    let list = |ts: u64| m[ts];
    if order.len() == 0 {
        assert(order.map_values(list) =~= Seq::<Seq<Waiter<C>>>::empty());
    } else {
        law_a_walk_goes_list_by_list(m, order.drop_last());
        assert(order.map_values(list) =~= order.drop_last().map_values(list).push(m[order.last()]));
        order.drop_last().map_values(list).lemma_flatten_push(m[order.last()]);
    }
}

/// All waiters are those of each list, taken together, and the population is their
/// number; the callbacks are theirs.
pub proof fn law_the_population_is_that_of_the_lists<C>(m: Table<C>, ts: u64, s: Seq<Waiter<C>>)
    requires
        m.dom().finite(),
        !m.contains_key(ts),
    ensures
        all_waiters(Map::<u64, Seq<Waiter<C>>>::empty()) == Multiset::<Waiter<C>>::empty(),
        all_waiters(m.insert(ts, s)) == all_waiters(m).add(s.to_multiset()),
        population(Map::<u64, Seq<Waiter<C>>>::empty()) == 0,
        population(m.insert(ts, s)) == population(m) + s.len(),
        all_callbacks(Map::<u64, Seq<Waiter<C>>>::empty()) == Multiset::<C>::empty(),
        all_callbacks(m.insert(ts, s)) == all_callbacks(m).add(
            Seq::new(s.len(), |i: int| s[i].cb).to_multiset(),
        ),
{
    let n = m.insert(ts, s);
    assert(n.remove(ts) =~= m);
    lemma_gather_split(n, ts, |w: Waiter<C>| w);
    lemma_gather_split(n, ts, |w: Waiter<C>| w.cb);
    lemma_map_identity(s);
    assert(s.map_values(|w: Waiter<C>| w.cb) =~= Seq::new(s.len(), |i: int| s[i].cb));
    assert(all_waiters(n) =~= all_waiters(m).add(s.to_multiset()));
    assert(all_callbacks(n) =~= all_callbacks(m).add(
        Seq::new(s.len(), |i: int| s[i].cb).to_multiset(),
    ));
}

/// A dump goes through the lists in some order, and each waiter in turn yields one
/// edge: from the transaction that waits to the one that holds its lock, with the
/// hash of the key.
pub proof fn law_a_dump_has_an_edge_for_each_waiter<C>(entries: Seq<WaitForEntry>, m: Table<C>)
    requires
        is_dump(entries, m),
    ensures
        exists|order: Seq<u64>|
            {
                let waiters = order.map_values(|ts: u64| m[ts]).flatten();
                &&& #[trigger] order.no_duplicates()
                &&& order.to_set() == m.dom()
                &&& entries.len() == waiters.len()
                &&& forall|i: int|
                    #![trigger entries[i]]
                    0 <= i < entries.len() ==> entries[i].txn == waiters[i].start_ts.0
                        && entries[i].wait_for_txn == waiters[i].lock.ts.0 && entries[i].key_hash
                        == waiters[i].lock.hash
            },
{
    let order = choose|order: Seq<u64>| #[trigger]
        is_walk(m, order) && entries == along(m, order).map_values(
            |w: Waiter<C>| edge_of(w),
        );
    law_a_walk_goes_list_by_list(m, order);
    let waiters = order.map_values(|ts: u64| m[ts]).flatten();
    assert(entries.len() == waiters.len());
}

/// An edge is in a dump just in case a transaction waits that way: for that holder,
/// on a key with that hash.
pub proof fn law_a_dump_has_just_the_edges_that_are_there<C>(
    entries: Seq<WaitForEntry>,
    m: Table<C>,
)
    requires
        m.dom().finite(),
        is_dump(entries, m),
    ensures
        forall|e: WaitForEntry| #[trigger]
            entries.contains(e) <==> exists|ts: u64, i: int|
                #![trigger m[ts][i]]
                m.contains_key(ts) && 0 <= i < m[ts].len() && m[ts][i].start_ts.0 == e.txn
                    && m[ts][i].lock.ts.0 == e.wait_for_txn && m[ts][i].lock.hash == e.key_hash,
{
    let edge = |w: Waiter<C>| edge_of(w);
    assert forall|e: WaitForEntry| #[trigger]
        entries.contains(e) <==> exists|ts: u64, i: int|
            #![trigger m[ts][i]]
            m.contains_key(ts) && 0 <= i < m[ts].len() && m[ts][i].start_ts.0 == e.txn
                && m[ts][i].lock.ts.0 == e.wait_for_txn && m[ts][i].lock.hash == e.key_hash by {
        lemma_gather_contains(m, edge, e);
        assert forall|w: Waiter<C>| #[trigger]
            edge(w) == e <==> w.start_ts.0 == e.txn && w.lock.ts.0 == e.wait_for_txn
                && w.lock.hash == e.key_hash by {}
        assert forall|ts: u64, i: int|
            #![trigger m[ts][i]]
            m[ts][i].start_ts.0 == e.txn && m[ts][i].lock.ts.0 == e.wait_for_txn
                && m[ts][i].lock.hash == e.key_hash implies edge(m[ts][i]) == e by {}
    }
}

/// A timer is set to the longest time allowed where none or a longer one is asked
/// for, and else to the time asked for.
pub proof fn law_a_timer_is_set_as_asked_or_to_the_longest(timeout: u64, longest: u64)
    ensures
        timeout > longest ==> granted_timeout(timeout, longest) == longest,
        timeout == 0 ==> granted_timeout(timeout, longest) == longest,
        0 < timeout <= longest ==> granted_timeout(timeout, longest) == timeout,
{
}

/// A storage error has a multi-version error at the bottom just in case it is that
/// error, wrapped layer by layer.
pub proof fn law_a_cause_is_what_was_wrapped(err: StorageError, inner: MvccErrorInner)
    ensures
        mvcc_cause(err) == Some(inner) <==> err == StorageError(
            Box::new(
                StorageErrorInner::Txn(
                    TxnError(Box::new(TxnErrorInner::Mvcc(MvccError(Box::new(inner))))),
                ),
            ),
        ),
{
}

/// A result complains of a lock just in case it has one part and that part failed
/// with the lock, wrapped layer by layer.
pub proof fn law_a_lock_is_found_in_the_only_part(pr: ProcessResult, info: LockInfo)
    ensures
        locked_by(pr) == Some(info) <==> (pr matches ProcessResult::MultiRes { results }
            && results@.len() == 1 && results@[0] == Err::<(), StorageError>(
            StorageError(
                Box::new(
                    StorageErrorInner::Txn(
                        TxnError(
                            Box::new(
                                TxnErrorInner::Mvcc(
                                    MvccError(Box::new(MvccErrorInner::KeyIsLocked(info))),
                                ),
                            ),
                        ),
                    ),
                ),
            ),
        )),
{
    if let ProcessResult::MultiRes { results } = pr {
        if results@.len() == 1 {
            if let Err(err) = results@[0] {
                law_a_cause_is_what_was_wrapped(err, MvccErrorInner::KeyIsLocked(info));
            }
        }
    }
}

/// Wrapping a value keeps it.
pub proof fn law_wrapping_keeps_the_value(
    n: u64,
    inner: MvccErrorInner,
    mvcc: MvccError,
    txn: TxnError,
)
    ensures
        <TimeStamp as FromSpec<u64>>::obeys_from_spec(),
        <MvccError as FromSpec<MvccErrorInner>>::obeys_from_spec(),
        <TxnError as FromSpec<MvccError>>::obeys_from_spec(),
        <StorageError as FromSpec<TxnError>>::obeys_from_spec(),
        <TimeStamp as FromSpec<u64>>::from_spec(n) == TimeStamp(n),
        <MvccError as FromSpec<MvccErrorInner>>::from_spec(inner) == MvccError(Box::new(inner)),
        <TxnError as FromSpec<MvccError>>::from_spec(mvcc) == TxnError(
            Box::new(TxnErrorInner::Mvcc(mvcc)),
        ),
        <StorageError as FromSpec<TxnError>>::from_spec(txn) == StorageError(
            Box::new(StorageErrorInner::Txn(txn)),
        ),
{
}

/// Whoever is woken up is told of a write conflict: its own start, that of the
/// holder of its lock and the commit it was woken up for, and no key.
pub proof fn law_a_wake_up_tells_of_the_conflict<C>(
    answer: Answer<C>,
    waiter: Waiter<C>,
    commit_ts: TimeStamp,
)
    requires
        is_wake_up_answer(answer, waiter, commit_ts),
    ensures
        answer.cb == waiter.cb,
        exists|key: Vec<u8>, primary: Vec<u8>|
            #![trigger key@, primary@]
            key@.len() == 0 && primary@.len() == 0 && answer.pr == (ProcessResult::Failed {
                err: StorageError(
                    Box::new(
                        StorageErrorInner::Txn(
                            TxnError(
                                Box::new(
                                    TxnErrorInner::Mvcc(
                                        MvccError(
                                            Box::new(
                                                MvccErrorInner::WriteConflict {
                                                    start_ts: waiter.start_ts,
                                                    conflict_start_ts: waiter.lock.ts,
                                                    conflict_commit_ts: commit_ts,
                                                    key,
                                                    primary,
                                                },
                                            ),
                                        ),
                                    ),
                                ),
                            ),
                        ),
                    ),
                ),
            }),
{
}

/// Whoever is part of a deadlock is told so: its own start, the holder of its lock,
/// the whole key that it waits for and the hash that was reported.
pub proof fn law_a_deadlock_names_the_whole_key<C>(
    answer: Answer<C>,
    waiter: Waiter<C>,
    info: LockInfo,
    hash: u64,
)
    requires
        is_deadlock_answer(answer, waiter, hash),
        waiter.pr matches ProcessResult::MultiRes { results } && results@.len() == 1
            && results@[0] == Err::<(), StorageError>(
            StorageError(
                Box::new(
                    StorageErrorInner::Txn(
                        TxnError(
                            Box::new(
                                TxnErrorInner::Mvcc(
                                    MvccError(Box::new(MvccErrorInner::KeyIsLocked(info))),
                                ),
                            ),
                        ),
                    ),
                ),
            ),
        ),
    ensures
        answer.cb == waiter.cb,
        exists|lock_key: Vec<u8>|
            #![trigger lock_key@]
            lock_key@ == info.key@ && answer.pr == (ProcessResult::Failed {
                err: StorageError(
                    Box::new(
                        StorageErrorInner::Txn(
                            TxnError(
                                Box::new(
                                    TxnErrorInner::Mvcc(
                                        MvccError(
                                            Box::new(
                                                MvccErrorInner::Deadlock {
                                                    start_ts: waiter.start_ts,
                                                    lock_ts: waiter.lock.ts,
                                                    lock_key,
                                                    deadlock_key_hash: hash,
                                                },
                                            ),
                                        ),
                                    ),
                                ),
                            ),
                        ),
                    ),
                ),
            }),
{
    law_a_lock_is_found_in_the_only_part(waiter.pr, info);
}

/// Those who are woken up come in order of their start, each one after the deadlock
/// detector has been told of it. With a delay, the one at place `i` is woken up `i`
/// delays from now; without, it is answered at once.
pub proof fn law_wake_ups_come_in_order<C, D>(
    actions: Seq<Action<C, D>>,
    queue: Seq<Waiter<C>>,
    s: Seq<Waiter<C>>,
    delay: u64,
    commit_ts: TimeStamp,
)
    requires
        is_queue_of(queue, s),
        wakes_up(actions, queue, delay, commit_ts),
    ensures
        queue.to_multiset() == s.to_multiset(),
        queue.len() == s.len(),
        actions.len() == 2 * s.len(),
        forall|i: int, j: int|
            0 <= i <= j < queue.len() ==> (#[trigger] queue[i]).start_ts.0 <= (
            #[trigger] queue[j]).start_ts.0,
        forall|i: int|
            #![trigger queue[i]]
            0 <= i < queue.len() ==> actions[2 * i] == (Action::<C, D>::CleanUpWaitFor {
                start_ts: queue[i].start_ts,
                lock: queue[i].lock,
            }),
        forall|i: int|
            #![trigger queue[i]]
            0 <= i < queue.len() && delay > 0 ==> actions[2 * i + 1] == (Action::<
                C,
                D,
            >::WakeUpAfter { delay: (delay * i) as u64, waiter: queue[i], commit_ts }) && delay * i
                <= u64::MAX,
        forall|i: int|
            #![trigger queue[i]]
            0 <= i < queue.len() && delay == 0 ==> {
                &&& actions[2 * i + 1] matches Action::Reply(a)
                &&& a.cb == queue[i].cb
                &&& a.pr matches ProcessResult::Failed { err }
                &&& *err.0 matches StorageErrorInner::Txn(txn)
                &&& *txn.0 matches TxnErrorInner::Mvcc(mvcc)
                &&& *mvcc.0 matches MvccErrorInner::WriteConflict {
                    start_ts,
                    conflict_start_ts,
                    conflict_commit_ts,
                    key,
                    primary,
                }
                &&& start_ts == queue[i].start_ts
                &&& conflict_start_ts == queue[i].lock.ts
                &&& conflict_commit_ts == commit_ts
                &&& key@.len() == 0
                &&& primary@.len() == 0
            },
{
    vstd::seq_lib::to_multiset_len(queue);
    vstd::seq_lib::to_multiset_len(s);
}

/// What running a wait comes to: the transaction is listed last under the holder
/// of its lock, a timer is set for it, and nobody leaves.
pub proof fn law_running_a_wait<C, D>(
    cfg: Config,
    m: Table<C>,
    w: Waiter<C>,
    timeout: u64,
    n: Table<C>,
    actions: Seq<Action<C, D>>,
)
    requires
        is_run(
            cfg,
            m,
            Task::WaitFor { start_ts: w.start_ts, cb: w.cb, pr: w.pr, lock: w.lock, timeout },
            n,
            actions,
        ),
    ensures
        n.dom() == m.dom().insert(w.lock.ts.0),
        m.contains_key(w.lock.ts.0) ==> n[w.lock.ts.0] == m[w.lock.ts.0].push(w),
        !m.contains_key(w.lock.ts.0) ==> n[w.lock.ts.0] == seq![w],
        forall|other: u64|
            other != w.lock.ts.0 && m.contains_key(other) ==> #[trigger] n[other] == m[other],
        actions.len() == 1,
        ({
            &&& actions[0] matches Action::ExpireAfter { delay, start_ts, lock }
            &&& start_ts == w.start_ts
            &&& lock == w.lock
            &&& 0 < timeout <= cfg.wait_for_lock_timeout ==> delay == timeout
            &&& timeout == 0 || timeout > cfg.wait_for_lock_timeout ==> delay
                == cfg.wait_for_lock_timeout
        }),
        left_by(
            m,
            Task::<C, D>::WaitFor {
                start_ts: w.start_ts,
                cb: w.cb,
                pr: w.pr,
                lock: w.lock,
                timeout,
            },
        ) == 0,
{
    law_a_new_waiter_comes_last(m, w.lock.ts.0, w);
}

/// What running a wake-up comes to. Those leave, each as often as it was listed, who
/// wait for the holder on a key whose hash is named; they come in order of their
/// start, each one after the deadlock detector has been told of it, and are woken up
/// one delay after the other, or answered at once where there is no delay. All the
/// others stay.
pub proof fn law_running_a_wake_up<C, D>(
    cfg: Config,
    m: Table<C>,
    lock_ts: TimeStamp,
    hashes: Vec<u64>,
    commit_ts: TimeStamp,
    n: Table<C>,
    actions: Seq<Action<C, D>>,
)
    requires
        is_run(cfg, m, Task::WakeUp { lock_ts, hashes, commit_ts }, n, actions),
    ensures
        exists|queue: Seq<Waiter<C>>|
            #![trigger queue.to_multiset()]
            {
                &&& forall|w: Waiter<C>| #[trigger]
                    queue.to_multiset().count(w) == if m.contains_key(lock_ts.0)
                        && hashes@.contains(w.lock.hash) {
                        m[lock_ts.0].to_multiset().count(w)
                    } else {
                        0
                    }
                &&& forall|i: int, j: int|
                    0 <= i <= j < queue.len() ==> (#[trigger] queue[i]).start_ts.0 <= (
                    #[trigger] queue[j]).start_ts.0
                &&& actions.len() == 2 * queue.len()
                &&& left_by(m, Task::<C, D>::WakeUp { lock_ts, hashes, commit_ts }) == queue.len()
                &&& forall|i: int|
                    #![trigger queue[i]]
                    0 <= i < queue.len() ==> actions[2 * i] == (Action::<C, D>::CleanUpWaitFor {
                        start_ts: queue[i].start_ts,
                        lock: queue[i].lock,
                    })
                &&& forall|i: int|
                    #![trigger queue[i]]
                    0 <= i < queue.len() && cfg.wake_up_delay_duration > 0 ==> (
                    actions[2 * i + 1] matches Action::WakeUpAfter {
                        delay,
                        waiter,
                        commit_ts: ts,
                    } && delay == cfg.wake_up_delay_duration * i && waiter == queue[i] && ts
                        == commit_ts)
                &&& forall|i: int|
                    #![trigger queue[i]]
                    0 <= i < queue.len() && cfg.wake_up_delay_duration == 0 ==> {
                        &&& actions[2 * i + 1] matches Action::Reply(a)
                        &&& a.cb == queue[i].cb
                        &&& a.pr matches ProcessResult::Failed { err }
                        &&& *err.0 matches StorageErrorInner::Txn(txn)
                        &&& *txn.0 matches TxnErrorInner::Mvcc(mvcc)
                        &&& *mvcc.0 matches MvccErrorInner::WriteConflict {
                            start_ts,
                            conflict_start_ts,
                            conflict_commit_ts,
                            key,
                            primary,
                        }
                        &&& start_ts == queue[i].start_ts
                        &&& conflict_start_ts == queue[i].lock.ts
                        &&& conflict_commit_ts == commit_ts
                        &&& key@.len() == 0
                        &&& primary@.len() == 0
                    }
            },
        n.contains_key(lock_ts.0) <==> m.contains_key(lock_ts.0) && exists|i: int|
            0 <= i < m[lock_ts.0].len() && !hashes@.contains(#[trigger] m[lock_ts.0][i].lock.hash),
        n.contains_key(lock_ts.0) ==> forall|w: Waiter<C>| #[trigger]
            n[lock_ts.0].to_multiset().count(w) == if hashes@.contains(w.lock.hash) {
                0
            } else {
                m[lock_ts.0].to_multiset().count(w)
            },
        forall|other: u64|
            other != lock_ts.0 ==> #[trigger] n.contains_key(other) == m.contains_key(other),
        forall|other: u64|
            other != lock_ts.0 && m.contains_key(other) ==> #[trigger] n[other] == m[other],
{
    let left = leaving(m, lock_ts.0, hashes@);
    let queue = choose|queue: Seq<Waiter<C>>| #[trigger]
        is_queue_of(queue, left) && wakes_up(
            actions,
            queue,
            cfg.wake_up_delay_duration,
            commit_ts,
        );
    law_a_wake_up_goes_by_the_hashes(m, lock_ts.0, hashes@);
    law_wake_ups_come_in_order(actions, queue, left, cfg.wake_up_delay_duration, commit_ts);
    assert forall|w: Waiter<C>| #[trigger]
        queue.to_multiset().count(w) == if m.contains_key(lock_ts.0) && hashes@.contains(
            w.lock.hash,
        ) {
            m[lock_ts.0].to_multiset().count(w)
        } else {
            0
        } by {
        assert(left.to_multiset().count(w) == queue.to_multiset().count(w));
    }
    if n.contains_key(lock_ts.0) {
        let w = n[lock_ts.0][0];
        assert(n[lock_ts.0].contains(w));
        vstd::seq_lib::to_multiset_contains(n[lock_ts.0], w);
        vstd::seq_lib::to_multiset_contains(m[lock_ts.0], w);
        assert(n[lock_ts.0].to_multiset().count(w) > 0);
        let i = choose|i: int| 0 <= i < m[lock_ts.0].len() && m[lock_ts.0][i] == w;
        assert(!hashes@.contains(m[lock_ts.0][i].lock.hash));
    }
}

/// What running a dump comes to: whoever asked is shown one edge for each waiter,
/// list by list, and nothing changes.
pub proof fn law_running_a_dump<C, D>(
    cfg: Config,
    m: Table<C>,
    cb: D,
    n: Table<C>,
    actions: Seq<Action<C, D>>,
)
    requires
        is_run(cfg, m, Task::Dump { cb }, n, actions),
    ensures
        n == m,
        actions.len() == 1,
        actions[0] matches Action::Report { viewer, entries } && viewer == cb && (exists|
            order: Seq<u64>,
        |
            {
                let waiters = order.map_values(|ts: u64| m[ts]).flatten();
                &&& #[trigger] order.no_duplicates()
                &&& order.to_set() == m.dom()
                &&& entries@.len() == waiters.len()
                &&& forall|i: int|
                    #![trigger entries@[i]]
                    0 <= i < waiters.len() ==> entries@[i].txn == waiters[i].start_ts.0
                        && entries@[i].wait_for_txn == waiters[i].lock.ts.0
                        && entries@[i].key_hash == waiters[i].lock.hash
            }),
        left_by(m, Task::<C, D>::Dump { cb }) == 0,
{
    if let Action::Report { viewer, entries } = actions[0] {
        law_a_dump_has_an_edge_for_each_waiter(entries@, m);
    }
}

/// What running a deadlock comes to. The first waiter listed under the holder of the
/// lock whose transaction and key hash are those named leaves, and is told of the
/// whole key that it waited for; where there is none, nothing happens.
pub proof fn law_running_a_deadlock<C, D>(
    cfg: Config,
    m: Table<C>,
    start_ts: TimeStamp,
    lock: Lock,
    hash: u64,
    n: Table<C>,
    actions: Seq<Action<C, D>>,
)
    requires
        is_run(cfg, m, Task::Deadlock { start_ts, lock, deadlock_key_hash: hash }, n, actions),
    ensures
        forall|i: int|
            #![trigger m[lock.ts.0][i]]
            m.contains_key(lock.ts.0) && 0 <= i < m[lock.ts.0].len() && m[lock.ts.0][i].start_ts
                == start_ts && m[lock.ts.0][i].lock.hash == lock.hash && (forall|j: int|
                0 <= j < i ==> (#[trigger] m[lock.ts.0][j]).start_ts != start_ts
                    || m[lock.ts.0][j].lock.hash != lock.hash) ==> {
                let w = m[lock.ts.0][i];
                &&& m[lock.ts.0].len() > 1 ==> n == m.insert(lock.ts.0, m[lock.ts.0].remove(i))
                &&& m[lock.ts.0].len() == 1 ==> n == m.remove(lock.ts.0)
                &&& left_by(
                    m,
                    Task::<C, D>::Deadlock { start_ts, lock, deadlock_key_hash: hash },
                ) == 1
                &&& actions.len() == 1
                &&& actions[0] matches Action::Reply(a)
                &&& a.cb == w.cb
                &&& a.pr matches ProcessResult::Failed { err }
                &&& *err.0 matches StorageErrorInner::Txn(txn)
                &&& *txn.0 matches TxnErrorInner::Mvcc(mvcc)
                &&& *mvcc.0 matches MvccErrorInner::Deadlock {
                    start_ts: s,
                    lock_ts,
                    lock_key,
                    deadlock_key_hash,
                }
                &&& s == start_ts
                &&& lock_ts == w.lock.ts
                &&& deadlock_key_hash == hash
                &&& w.pr matches ProcessResult::MultiRes { results }
                &&& results@.len() == 1
                &&& results@[0] matches Err(cause)
                &&& *cause.0 matches StorageErrorInner::Txn(txn_cause)
                &&& *txn_cause.0 matches TxnErrorInner::Mvcc(mvcc_cause)
                &&& *mvcc_cause.0 matches MvccErrorInner::KeyIsLocked(info)
                &&& lock_key@ == info.key@
            },
        (forall|i: int|
            m.contains_key(lock.ts.0) && 0 <= i < m[lock.ts.0].len() ==> (
            #[trigger] m[lock.ts.0][i]).start_ts != start_ts || m[lock.ts.0][i].lock.hash
                != lock.hash) ==> n == m && actions.len() == 0 && left_by(
            m,
            Task::<C, D>::Deadlock { start_ts, lock, deadlock_key_hash: hash },
        ) == 0,
{
    law_a_removal_takes_the_first_match(m, start_ts, lock);
}

/// A task can be run unless it is a wake-up whose last delay is past what can be
/// told, or a deadlock of a waiter whose result complains of no lock.
pub proof fn law_what_can_be_run<C, D>(mgr: WaiterManager<C>, task: Task<C, D>)
    ensures
        task is WaitFor || task is Dump ==> mgr.can_run(task),
        task matches Task::WakeUp { lock_ts, hashes, commit_ts } ==> (mgr.can_run(task) <==> (
        leaving(mgr@, lock_ts.0, hashes@).len() > 0 ==> mgr.config().wake_up_delay_duration * (
        leaving(mgr@, lock_ts.0, hashes@).len() - 1) <= u64::MAX)),
        task matches Task::Deadlock { start_ts, lock, deadlock_key_hash } ==> (mgr.can_run(task)
            <==> (find_waiter(mgr@, start_ts, lock) matches Some(w) ==> locked_by(w.pr) is Some)),
{
}

/// What is kept at all times: each list has someone in it, and in the manager's
/// table each waiter is listed under the holder of its lock.
pub proof fn law_the_tables_are_kept_in_order<C>(
    table: WaitTable<C>,
    mgr: WaiterManager<C>,
    other: WaiterManager<C>,
)
    ensures
        table.wf() <==> table@.dom().finite() && forall|ts: u64| #[trigger]
            table@.contains_key(ts) ==> table@[ts].len() > 0,
        mgr.wf() <==> mgr@.dom().finite() && (forall|ts: u64| #[trigger]
            mgr@.contains_key(ts) ==> mgr@[ts].len() > 0) && (forall|ts: u64, i: int|
            #![trigger mgr@[ts][i]]
            mgr@.contains_key(ts) && 0 <= i < mgr@[ts].len() ==> mgr@[ts][i].lock.ts.0 == ts),
        mgr.same_setup(&other) <==> mgr.config() == other.config() && mgr.shared_count()
            == other.shared_count(),
{
}

/// A task that the queue took needs no answer. One that came back was not delivered,
/// and if it was a wait, its callback is called with the result it came with.
pub proof fn law_a_reply_is_settled<C, D>(reply: Result<(), Stopped<Task<C, D>>>)
    ensures
        settled(reply).delivered <==> reply is Ok,
        reply is Ok ==> settled(reply).refused is None,
        reply matches Err(stopped) ==> match stopped.0 {
            Task::WaitFor { start_ts, cb, pr, lock, timeout } => settled(reply).refused == Some(
                Answer { cb, pr },
            ),
            _ => settled(reply).refused is None,
        },
{
}

/// What is said of a task that was handed over comes from a reply of the queue to
/// that very task.
pub proof fn law_a_notice_comes_from_the_queue<
    C,
    D,
    S: Fn(Task<C, D>) -> Result<(), Stopped<Task<C, D>>>,
>(scheduler: Scheduler<C, D, S>, task: Task<C, D>, notice: Notice<C>)
    requires
        scheduler.is_notice(task, notice),
    ensures
        exists|reply: Result<(), Stopped<Task<C, D>>>| #[trigger]
            call_ensures(scheduler.queue(), (task,), reply) && (notice.delivered <==> reply is Ok)
                && match reply {
                Err(Stopped(Task::WaitFor { start_ts, cb, pr, lock, timeout })) => notice.refused
                    == Some(Answer { cb, pr }),
                _ => notice.refused is None,
            },
{
}

/// To take a number of waiters off the shared number is to ask
/// `AtomicUsize::fetch_sub` for that number.
pub proof fn law_taking_off_is_a_subtraction(shared: Arc<AtomicUsize>, n: usize)
    requires
        takes_off(shared, n),
    ensures
        exists|before: usize| #[trigger]
            call_ensures(AtomicUsize::fetch_sub, (&*shared, n, Ordering::SeqCst), before),
{
}

/// What a task looks like in a log.
pub proof fn law_a_task_is_displayed<C, D>(task: Task<C, D>)
    ensures
        task matches Task::WaitFor { start_ts, lock, .. } ==> display_of(task) == "txn:"@ + decimal(
            start_ts.0 as nat,
        ) + " waiting for "@ + decimal(lock.ts.0 as nat) + ":"@ + decimal(lock.hash as nat),
        task matches Task::WakeUp { lock_ts, .. } ==> display_of(task)
            == "waking up txns waiting for "@ + decimal(lock_ts.0 as nat),
        task is Dump ==> display_of(task) == "dump"@,
        task matches Task::Deadlock { start_ts, .. } ==> display_of(task) == "txn:"@ + decimal(
            start_ts.0 as nat,
        ) + " deadlock"@,
{
}

/// Decimal notation: one digit for a number below ten; for others, the last digit
/// stands for what is over the tens, behind the notation of their number.
pub proof fn law_decimal_notation(n: nat)
    ensures
        n < 10 ==> decimal(n) == seq![(48 + n) as char],
        n >= 10 ==> decimal(n) == decimal(n / 10).push((48 + n % 10) as char),
{
}

} // verus!
