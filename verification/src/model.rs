//! The wait table as mathematics: lists of waiters, keyed by the transaction
//! whose lock they wait for.
use crate::lock::{Lock, TimeStamp};
use crate::waiter::Waiter;
use vstd::multiset::Multiset;
use vstd::prelude::*;

verus! {

/// Whoever waits, by the timestamp of the lock waited for.
pub type Table<C> = Map<u64, Seq<Waiter<C>>>;

/// The waiters for the locks of transaction `ts`.
pub open spec fn waiting_for<C>(m: Table<C>, ts: u64) -> Seq<Waiter<C>> {
    if m.contains_key(ts) {
        m[ts]
    } else {
        Seq::empty()
    }
}

/// `m` with `s` as the waiters for the locks of `ts`. Nobody waiting means no
/// entry.
pub open spec fn with_waiters<C>(m: Table<C>, ts: u64, s: Seq<Waiter<C>>) -> Table<C> {
    if s.len() == 0 {
        m.remove(ts)
    } else {
        m.insert(ts, s)
    }
}

/// No transaction is listed without a waiter.
pub open spec fn no_empty_lists<C>(m: Table<C>) -> bool {
    &&& m.dom().finite()
    &&& forall|ts: u64| #[trigger] m.contains_key(ts) ==> m[ts].len() > 0
}

/// Every waiter is listed under the transaction that holds its lock.
pub open spec fn listed_by_lock<C>(m: Table<C>) -> bool {
    forall|ts: u64, i: int|
        #![trigger m[ts][i]]
        m.contains_key(ts) && 0 <= i < m[ts].len() ==> m[ts][i].lock.ts.0 == ts
}

/// What `f` makes of each waiter in the table, taken together.
pub open spec fn gather<C, T>(m: Table<C>, f: spec_fn(Waiter<C>) -> T) -> Multiset<T>
    decreases m.dom().len(),
    when m.dom().finite()
{
    if m.dom().len() == 0 {
        Multiset::empty()
    } else {
        let ts = m.dom().choose();
        m[ts].map_values(f).to_multiset().add(gather(m.remove(ts), f))
    }
}

/// All waiters in the table.
pub open spec fn all_waiters<C>(m: Table<C>) -> Multiset<Waiter<C>> {
    gather(m, |w: Waiter<C>| w)
}

/// All callbacks in the table.
pub open spec fn all_callbacks<C>(m: Table<C>) -> Multiset<C> {
    gather(m, |w: Waiter<C>| w.cb)
}

/// How many waiters there are in the table.
pub open spec fn population<C>(m: Table<C>) -> nat {
    all_waiters(m).len()
}

/// Whether a wake-up on the keys with these hashes concerns `w`.
pub open spec fn is_ready<C>(w: Waiter<C>, hashes: Seq<u64>) -> bool {
    hashes.contains(w.lock.hash)
}

/// Takes the ready waiters out of `s`, looking at place `from` and up. A waiter
/// that leaves makes room for the last one in the list, which is looked at next.
/// Gives those who leave, in the order in which they are found, and those who
/// stay.
pub open spec fn drain_ready<C>(s: Seq<Waiter<C>>, from: int, hashes: Seq<u64>) -> (
    Seq<Waiter<C>>,
    Seq<Waiter<C>>,
)
    decreases s.len() - from,
{
    if from < 0 || from >= s.len() {
        (Seq::empty(), s)
    } else if is_ready(s[from], hashes) {
        let (leaving, staying) = drain_ready(
            s.update(from, s.last()).drop_last(),
            from,
            hashes,
        );
        (seq![s[from]] + leaving, staying)
    } else {
        drain_ready(s, from + 1, hashes)
    }
}

/// Those who leave when the keys with these hashes are unlocked by `ts`.
pub open spec fn leaving<C>(m: Table<C>, ts: u64, hashes: Seq<u64>) -> Seq<Waiter<C>> {
    drain_ready(waiting_for(m, ts), 0, hashes).0
}

/// The table once they have left.
pub open spec fn after_leaving<C>(m: Table<C>, ts: u64, hashes: Seq<u64>) -> Table<C> {
    with_waiters(m, ts, drain_ready(waiting_for(m, ts), 0, hashes).1)
}

/// Whether `w` is transaction `start_ts` waiting for the key with this hash.
pub open spec fn is_wait_of<C>(w: Waiter<C>, start_ts: TimeStamp, hash: u64) -> bool {
    w.start_ts == start_ts && w.lock.hash == hash
}

/// Whether place `i` is the first at which `start_ts` waits for that key.
pub open spec fn is_first_wait<C>(
    s: Seq<Waiter<C>>,
    start_ts: TimeStamp,
    hash: u64,
    i: int,
) -> bool {
    &&& 0 <= i < s.len()
    &&& is_wait_of(s[i], start_ts, hash)
    &&& forall|j: int| 0 <= j < i ==> !is_wait_of(#[trigger] s[j], start_ts, hash)
}

/// The first place at which `start_ts` waits for that key.
pub open spec fn first_wait<C>(s: Seq<Waiter<C>>, start_ts: TimeStamp, hash: u64) -> Option<int> {
    if exists|i: int| is_first_wait(s, start_ts, hash, i) {
        Some(choose|i: int| is_first_wait(s, start_ts, hash, i))
    } else {
        None
    }
}

/// The waiter that stands for `start_ts` waiting for `lock`: the first one where
/// there are several.
pub open spec fn find_waiter<C>(m: Table<C>, start_ts: TimeStamp, lock: Lock) -> Option<Waiter<C>> {
    match first_wait(waiting_for(m, lock.ts.0), start_ts, lock.hash) {
        Some(i) => Some(waiting_for(m, lock.ts.0)[i]),
        None => None,
    }
}

/// The table without that waiter.
pub open spec fn without_waiter<C>(m: Table<C>, start_ts: TimeStamp, lock: Lock) -> Table<C> {
    match first_wait(waiting_for(m, lock.ts.0), start_ts, lock.hash) {
        Some(i) => with_waiters(m, lock.ts.0, waiting_for(m, lock.ts.0).remove(i)),
        None => m,
    }
}

/// The table with one waiter more.
pub open spec fn with_waiter<C>(m: Table<C>, ts: u64, w: Waiter<C>) -> Table<C> {
    m.insert(ts, waiting_for(m, ts).push(w))
}

/// In ascending order of the waiting transactions.
pub open spec fn ascending_by_start_ts<C>(s: Seq<Waiter<C>>) -> bool {
    forall|i: int, j: int| 0 <= i <= j < s.len() ==> s[i].start_ts.0 <= s[j].start_ts.0
}

/// Whether `order` names each transaction in the table once.
pub open spec fn is_walk<C>(m: Table<C>, order: Seq<u64>) -> bool {
    &&& order.no_duplicates()
    &&& order.to_set() == m.dom()
}

/// The waiters as a walk over the table meets them.
pub open spec fn along<C>(m: Table<C>, order: Seq<u64>) -> Seq<Waiter<C>>
    decreases order.len(),
{
    if order.len() == 0 {
        Seq::empty()
    } else {
        along(m, order.drop_last()) + m[order.last()]
    }
}

} // verus!
