//! The table of those who wait.
use crate::lemmas::{
    lemma_along_bounded, lemma_along_gathers, lemma_drain_filters, lemma_first_wait,
    lemma_gather_after_leaving, lemma_gather_with_waiter, lemma_gather_without_waiter,
    lemma_map_identity, lemma_no_wait, lemma_same_members,
};
use crate::lock::{Lock, TimeStamp};
use crate::model::{
    after_leaving, along, drain_ready, find_waiter, first_wait, gather, is_first_wait, is_ready,
    is_wait_of, is_walk, leaving, no_empty_lists, population, waiting_for, with_waiter,
    without_waiter, Table,
};
use crate::outcomes::{law_a_dump_has_an_edge_for_each_waiter, law_a_wake_up_goes_by_the_hashes};
use crate::sorting::{ascending, binary_search, sort_unstable};
use crate::waiter::{edge_of, WaitForEntry, Waiter};
use crate::waiter_count::{takes_off, WaiterCount};
use std::collections::hash_map::Entry;
use std::collections::HashMap;
use std::sync::atomic::AtomicUsize;
use std::sync::Arc;
use vstd::multiset::Multiset;
use vstd::prelude::*;
use vstd::std_specs::hash::spec_hash_map_iter;
use vstd::std_specs::iter::IteratorSpec;

verus! {

broadcast use vstd::std_specs::hash::group_hash_axioms;

/// Those who wait for the locks of one transaction.
pub type Waiters<C> = Vec<Waiter<C>>;

/// Everybody who waits, by the transaction whose locks they wait for.
pub struct WaitTable<C> {
    wait_table: HashMap<u64, Waiters<C>>,
    waiter_count: WaiterCount,
}

/// The first place at which `start_ts` waits for the key with this hash.
fn position<C>(waiters: &Waiters<C>, start_ts: TimeStamp, hash: u64) -> (place: Option<usize>)
    ensures
        match (place, first_wait(waiters@, start_ts, hash)) {
            (Some(i), Some(j)) => i == j && is_first_wait(waiters@, start_ts, hash, j),
            (None, None) => true,
            _ => false,
        },
{
    let mut i: usize = 0;
    while i < waiters.len()
        invariant
            i <= waiters@.len(),
            forall|j: int| 0 <= j < i ==> !is_wait_of(#[trigger] waiters@[j], start_ts, hash),
        decreases waiters@.len() - i,
    {
        if waiters[i].start_ts.0 == start_ts.0 && waiters[i].lock.hash == hash {
            proof {
                lemma_first_wait(waiters@, start_ts, hash, i as int);
            }
            return Some(i);
        }
        i += 1;
    }
    proof {
        lemma_no_wait(waiters@, start_ts, hash);
    }
    None
}

/// Going over the hash table visits each transaction in it once.
proof fn lemma_walk<C>(table: &HashMap<u64, Waiters<C>>, order: Seq<u64>)
    requires
        order.len() <= spec_hash_map_iter(table).remaining().len(),
        forall|i: int|
            0 <= i < order.len() ==> #[trigger] order[i] == *spec_hash_map_iter(
                table,
            ).remaining()[i].0,
        spec_hash_map_iter(table).remaining().no_duplicates(),
    ensures
        order.no_duplicates(),
        forall|i: int| 0 <= i < order.len() ==> table@.contains_key(#[trigger] order[i]),
        order.len() == spec_hash_map_iter(table).remaining().len() ==> order.to_set()
            == table@.dom(),
{
    let pairs = spec_hash_map_iter(table).remaining();
    assert forall|i: int, j: int| 0 <= i < order.len() && 0 <= j < order.len() && i != j implies
        order[i] != order[j] by {
        if order[i] == order[j] {
            assert(table@.contains_key(*pairs[i].0));
            assert(table@.contains_key(*pairs[j].0));
            assert(pairs[i] == pairs[j]);
        }
    }
    assert forall|i: int| 0 <= i < order.len() implies table@.contains_key(#[trigger] order[i]) by {
        assert(table@.contains_key(*pairs[i].0));
    }
    if order.len() == pairs.len() {
        assert forall|ts: u64| order.to_set().contains(ts) == table@.dom().contains(ts) by {
            if order.contains(ts) {
                let i = choose|i: int| 0 <= i < order.len() && order[i] == ts;
                assert(table@.contains_key(order[i]));
            }
            if table@.contains_key(ts) {
                assert(pairs.contains((&ts, &table@[ts])));
                let i = choose|i: int| 0 <= i < pairs.len() && pairs[i] == (&ts, &table@[ts]);
                assert(order[i] == ts);
            }
        }
        assert(order.to_set() =~= table@.dom());
    }
}

impl<C> View for WaitTable<C> {
    type V = Table<C>;

    closed spec fn view(&self) -> Table<C> {
        self.wait_table@.map_values(|waiters: Waiters<C>| waiters@)
    }
}

impl<C> WaitTable<C> {
    /// No transaction is listed without a waiter.
    pub open spec fn wf(&self) -> bool {
        no_empty_lists(self@)
    }

    /// The number of waiters that is shared with whoever lets them in.
    pub closed spec fn shared_count(&self) -> Arc<AtomicUsize> {
        self.waiter_count.shared()
    }

    /// How many waiters this table has asked to be taken off the shared number.
    pub closed spec fn released(&self) -> int {
        self.waiter_count.released()
    }

    /// An empty table. Those who leave it are to be taken off `waiter_count`.
    pub fn new(waiter_count: Arc<AtomicUsize>) -> (table: WaitTable<C>)
        ensures
            table.wf(),
            table@ == Map::<u64, Seq<Waiter<C>>>::empty(),
            table.shared_count() == waiter_count,
            table.released() == 0,
    {
        let table = WaitTable {
            wait_table: HashMap::new(),
            waiter_count: WaiterCount::new(waiter_count),
        };
        assert(table@ =~= Map::<u64, Seq<Waiter<C>>>::empty());
        table
    }

    /// Lets `waiter` wait for the locks of transaction `ts`, behind those who do
    /// already. The shared number counts it from before it got here, so that
    /// number is left alone.
    pub fn add_waiter(&mut self, ts: TimeStamp, waiter: Waiter<C>) -> (added: bool)
        requires
            old(self).wf(),
        ensures
            final(self).wf(),
            added,
            final(self)@ == with_waiter(old(self)@, ts.0, waiter),
            final(self)@ == old(self)@.insert(
                ts.0,
                if old(self)@.contains_key(ts.0) {
                    old(self)@[ts.0].push(waiter)
                } else {
                    seq![waiter]
                },
            ),
            population(final(self)@) == population(old(self)@) + 1,
            final(self).shared_count() == old(self).shared_count(),
            final(self).released() == old(self).released(),
    {
        self.wait_table.entry(ts.0).or_insert(Vec::new()).push(waiter);
        proof {
            assert(self@ =~= with_waiter(old(self)@, ts.0, waiter));
            assert(Seq::<Waiter<C>>::empty().push(waiter) =~= seq![waiter]);
            lemma_gather_with_waiter(old(self)@, ts.0, waiter, |w: Waiter<C>| w);
        }
        true
    }

    /// Takes out those who wait for a lock of transaction `ts` on a key with one
    /// of these hashes.
    pub fn take_ready_waiters(&mut self, ts: TimeStamp, hashes: Vec<u64>) -> (ready: Waiters<C>)
        requires
            old(self).wf(),
        ensures
            final(self).wf(),
            ready@ == leaving(old(self)@, ts.0, hashes@),
            final(self)@ == after_leaving(old(self)@, ts.0, hashes@),
            forall|i: int|
                0 <= i < ready@.len() ==> hashes@.contains((#[trigger] ready@[i]).lock.hash),
            forall|i: int|
                old(self)@.contains_key(ts.0) && 0 <= i < old(self)@[ts.0].len()
                    ==> if hashes@.contains((#[trigger] old(self)@[ts.0][i]).lock.hash) {
                    ready@.contains(old(self)@[ts.0][i])
                } else {
                    final(self)@.contains_key(ts.0) && final(self)@[ts.0].contains(
                        old(self)@[ts.0][i],
                    )
                },
            population(final(self)@) + ready@.len() == population(old(self)@),
            final(self).shared_count() == old(self).shared_count(),
            old(self)@.contains_key(ts.0) ==> takes_off(
                old(self).shared_count(),
                ready@.len() as usize,
            ),
            final(self).released() == old(self).released() + ready@.len(),
    {
        let ghost asked = hashes@;
        let mut hashes = hashes;
        sort_unstable(&mut hashes);
        proof {
            lemma_same_members(hashes@, asked);
        }
        let mut ready_waiters: Waiters<C> = Vec::new();
        match self.wait_table.entry(ts.0) {
            Entry::Occupied(mut entry) => {
                let waiters = entry.get_mut();
                let ghost all = waiters@;
                let mut i: usize = 0;
                while i < waiters.len()
                    invariant
                        i <= waiters@.len(),
                        ascending(hashes@),
                        forall|x: u64| hashes@.contains(x) == asked.contains(x),
                        drain_ready(all, 0, asked).0 == ready_waiters@ + drain_ready(
                            waiters@,
                            i as int,
                            asked,
                        ).0,
                        drain_ready(all, 0, asked).1 == drain_ready(waiters@, i as int, asked).1,
                    decreases waiters@.len() - i,
                {
                    let ghost seen = waiters@;
                    let ghost found = ready_waiters@;
                    if binary_search(&hashes, waiters[i].lock.hash).is_ok() {
                        ready_waiters.push(waiters.swap_remove(i));
                        proof {
                            let later = drain_ready(waiters@, i as int, asked).0;
                            assert(is_ready(seen[i as int], asked));
                            assert(found + (seq![seen[i as int]] + later) =~= ready_waiters@
                                + later);
                        }
                    } else {
                        i += 1;
                    }
                }
                self.waiter_count.release(ready_waiters.len());
                if waiters.is_empty() {
                    entry.remove();
                }
            },
            Entry::Vacant(_) => {},
        }
        proof {
            assert(self@ =~= after_leaving(old(self)@, ts.0, asked));
            lemma_gather_after_leaving(old(self)@, ts.0, asked, |w: Waiter<C>| w);
            lemma_map_identity(ready_waiters@);
            vstd::seq_lib::to_multiset_len(ready_waiters@);
            law_a_wake_up_goes_by_the_hashes(old(self)@, ts.0, asked);
            assert forall|i: int| 0 <= i < ready_waiters@.len() implies asked.contains(
                (#[trigger] ready_waiters@[i]).lock.hash,
            ) by {
                assert(leaving(old(self)@, ts.0, asked).contains(ready_waiters@[i]));
            }
            assert forall|i: int|
                old(self)@.contains_key(ts.0) && 0 <= i < old(self)@[ts.0].len()
                    && asked.contains(
                    (#[trigger] old(self)@[ts.0][i]).lock.hash,
                ) implies ready_waiters@.contains(old(self)@[ts.0][i]) by {
                assert(old(self)@[ts.0].contains(old(self)@[ts.0][i]));
            }
        }
        ready_waiters
    }

    /// Takes out transaction `start_ts` waiting for `lock`: the first one listed
    /// where it waits several times.
    pub fn remove_waiter(&mut self, start_ts: TimeStamp, lock: Lock) -> (removed: Option<Waiter<C>>)
        requires
            old(self).wf(),
        ensures
            final(self).wf(),
            removed == find_waiter(old(self)@, start_ts, lock),
            final(self)@ == without_waiter(old(self)@, start_ts, lock),
            removed is Some ==> population(final(self)@) + 1 == population(old(self)@),
            removed is None ==> final(self)@ == old(self)@,
            final(self).shared_count() == old(self).shared_count(),
            removed is Some ==> takes_off(old(self).shared_count(), 1),
            final(self).released() == old(self).released() + if removed is Some {
                1int
            } else {
                0
            },
    {
        let mut removed: Option<Waiter<C>> = None;
        match self.wait_table.entry(lock.ts.0) {
            Entry::Occupied(mut entry) => {
                let waiters = entry.get_mut();
                if let Some(idx) = position(waiters, start_ts, lock.hash) {
                    removed = Some(waiters.remove(idx));
                    self.waiter_count.release(1);
                    if waiters.is_empty() {
                        entry.remove();
                    }
                }
            },
            Entry::Vacant(_) => {
                proof {
                    lemma_no_wait(Seq::<Waiter<C>>::empty(), start_ts, lock.hash);
                }
            },
        }
        proof {
            assert(self@ =~= without_waiter(old(self)@, start_ts, lock));
            lemma_gather_without_waiter(old(self)@, start_ts, lock, |w: Waiter<C>| w);
        }
        removed
    }

    /// How many wait.
    pub fn size(&self) -> (n: usize)
        requires
            population(self@) <= usize::MAX,
        ensures
            n == population(self@),
    {
        let mut n: usize = 0;
        let ghost mut order = Seq::<u64>::empty();
        for (ts, waiters) in iter: self.wait_table.iter()
            invariant
                population(self@) <= usize::MAX,
                iter.seq() == spec_hash_map_iter(&self.wait_table).remaining(),
                iter.seq().no_duplicates(),
                order.len() == iter.index(),
                forall|i: int| 0 <= i < order.len() ==> order[i] == *(#[trigger] iter.seq()[i]).0,
                n == along(self@, order).len(),
        {
            proof {
                assert(self@.dom() =~= self.wait_table@.dom());
                lemma_walk(&self.wait_table, order.push(*ts));
                lemma_along_bounded(self@, order.push(*ts));
                assert(order.push(*ts).drop_last() =~= order);
                order = order.push(*ts);
            }
            n += waiters.len();
        }
        proof {
            assert(self@.dom() =~= self.wait_table@.dom());
            lemma_walk(&self.wait_table, order);
            lemma_along_gathers(self@, order, |w: Waiter<C>| w);
            lemma_map_identity(along(self@, order));
            vstd::seq_lib::to_multiset_len(along(self@, order));
        }
        n
    }

    /// The edges that the waiters add to the wait-for graph, one for each. They
    /// come list by list, and the order of the lists is left open.
    pub fn to_wait_for_entries(&self) -> (entries: Vec<WaitForEntry>)
        ensures
            exists|order: Seq<u64>| #[trigger]
                is_walk(self@, order) && entries@ == along(self@, order).map_values(
                    |w: Waiter<C>| edge_of(w),
                ),
            entries@.to_multiset() == gather(self@, |w: Waiter<C>| edge_of(w)),
            exists|order: Seq<u64>|
                {
                    let waiters = order.map_values(|ts: u64| self@[ts]).flatten();
                    &&& #[trigger] order.no_duplicates()
                    &&& order.to_set() == self@.dom()
                    &&& entries@.len() == waiters.len()
                    &&& forall|i: int|
                        #![trigger entries@[i]]
                        0 <= i < waiters.len() ==> entries@[i].txn == waiters[i].start_ts.0
                            && entries@[i].wait_for_txn == waiters[i].lock.ts.0
                            && entries@[i].key_hash == waiters[i].lock.hash
                },
    {
        let mut entries: Vec<WaitForEntry> = Vec::new();
        let ghost mut order = Seq::<u64>::empty();
        let ghost edge = |w: Waiter<C>| edge_of(w);
        assert(entries@ =~= along(self@, order).map_values(edge));
        for (ts, waiters) in iter: self.wait_table.iter()
            invariant
                edge == (|w: Waiter<C>| edge_of(w)),
                iter.seq() == spec_hash_map_iter(&self.wait_table).remaining(),
                iter.seq().no_duplicates(),
                order.len() == iter.index(),
                forall|i: int| 0 <= i < order.len() ==> order[i] == *(#[trigger] iter.seq()[i]).0,
                entries@ == along(self@, order).map_values(edge),
        {
            let ghost before = entries@;
            proof {
                assert(self.wait_table@.contains_key(*iter.seq()[iter.index()].0));
                assert(self@[*ts] == waiters@);
            }
            for waiter in inner: waiters.iter()
                invariant
                    edge == (|w: Waiter<C>| edge_of(w)),
                    inner.seq() == waiters@.as_ref(),
                    entries@ == before + waiters@.take(inner.index()).map_values(edge),
            {
                entries.push(
                    WaitForEntry {
                        txn: waiter.start_ts.into_inner(),
                        wait_for_txn: waiter.lock.ts.into_inner(),
                        key_hash: waiter.lock.hash,
                    },
                );
                assert(waiters@.take(inner.index() + 1) =~= waiters@.take(inner.index()).push(
                    *waiter,
                ));
                assert(entries@ =~= before + waiters@.take(inner.index() + 1).map_values(edge));
            }
            proof {
                let next = order.push(*ts);
                assert(waiters@.take(waiters@.len() as int) =~= waiters@);
                assert(next.drop_last() =~= order);
                assert(entries@ =~= along(self@, next).map_values(edge));
                order = next;
            }
        }
        proof {
            assert(self@.dom() =~= self.wait_table@.dom());
            lemma_walk(&self.wait_table, order);
            assert(is_walk(self@, order));
            lemma_along_gathers(self@, order, edge);
            law_a_dump_has_an_edge_for_each_waiter(entries@, self@);
        }
        entries
    }

    /// Transaction `start_ts` waiting for `lock`, as [`WaitTable::remove_waiter`]
    /// would find it.
    pub fn find(&self, start_ts: TimeStamp, lock: Lock) -> (found: Option<&Waiter<C>>)
        ensures
            match found {
                Some(w) => find_waiter(self@, start_ts, lock) == Some(*w),
                None => find_waiter(self@, start_ts, lock) is None,
            },
    {
        match self.wait_table.get(&lock.ts.0) {
            Some(waiters) => match position(waiters, start_ts, lock.hash) {
                Some(idx) => Some(&waiters[idx]),
                None => None,
            },
            None => {
                proof {
                    lemma_no_wait(Seq::<Waiter<C>>::empty(), start_ts, lock.hash);
                }
                None
            },
        }
    }

    /// How many [`WaitTable::take_ready_waiters`] would take out.
    pub fn count_ready_waiters(&self, ts: TimeStamp, hashes: &Vec<u64>) -> (n: usize)
        ensures
            n == leaving(self@, ts.0, hashes@).len(),
    {
        let mut n: usize = 0;
        let mut sorted = hashes.clone();
        assert(sorted@ =~= hashes@);
        sort_unstable(&mut sorted);
        proof {
            lemma_same_members(sorted@, hashes@);
        }
        let ghost ready = |w: Waiter<C>| is_ready(w, hashes@);
        let ghost all = waiting_for(self@, ts.0);
        assert(all.take(0) =~= Seq::<Waiter<C>>::empty());
        assert(all.take(0).to_multiset().filter(ready) =~= Multiset::<Waiter<C>>::empty()) by {
            broadcast use vstd::seq_lib::group_to_multiset_ensures;

        }
        if let Some(waiters) = self.wait_table.get(&ts.0) {
            let mut i: usize = 0;
            while i < waiters.len()
                invariant
                    i <= waiters@.len(),
                    n <= i,
                    ascending(sorted@),
                    forall|x: u64| sorted@.contains(x) == hashes@.contains(x),
                    ready == (|w: Waiter<C>| is_ready(w, hashes@)),
                    n == waiters@.take(i as int).to_multiset().filter(ready).len(),
                decreases waiters@.len() - i,
            {
                let ghost before = waiters@.take(i as int);
                let ghost w = waiters@[i as int];
                proof {
                    assert(waiters@.take(i + 1) =~= before.push(w));
                    vstd::seq_lib::to_multiset_build(before, w);
                }
                if binary_search(&sorted, waiters[i].lock.hash).is_ok() {
                    assert(before.push(w).to_multiset().filter(ready)
                        =~= before.to_multiset().filter(ready).insert(w));
                    n += 1;
                } else {
                    assert(before.push(w).to_multiset().filter(ready)
                        =~= before.to_multiset().filter(ready));
                }
                i += 1;
            }
            assert(waiters@.take(waiters@.len() as int) =~= all);
        }
        proof {
            assert(all.take(all.len() as int) =~= all);
            lemma_drain_filters(all, hashes@);
            vstd::seq_lib::to_multiset_len(leaving(self@, ts.0, hashes@));
        }
        n
    }
}

} // verus!
