//! Facts about the table that the proofs elsewhere rest on.
use crate::lock::{Lock, TimeStamp};
use crate::model::{
    after_leaving, along, drain_ready, find_waiter, first_wait, gather, is_first_wait, is_ready,
    is_wait_of, is_walk, leaving, listed_by_lock, population, waiting_for, with_waiter,
    with_waiters, without_waiter, Table,
};
use crate::waiter::Waiter;
use vstd::prelude::*;

verus! {

broadcast use {
    vstd::multiset::group_multiset_axioms,
    vstd::seq_lib::group_to_multiset_ensures,
};

/// The table can be gathered from any of its lists first.
pub proof fn lemma_gather_split<C, T>(m: Table<C>, ts: u64, f: spec_fn(Waiter<C>) -> T)
    requires
        m.dom().finite(),
        m.contains_key(ts),
    ensures
        gather(m, f) == m[ts].map_values(f).to_multiset().add(gather(m.remove(ts), f)),
    decreases m.dom().len(),
{
    let first = m.dom().choose();
    assert(m.dom().contains(first));
    if ts != first {
        lemma_gather_split(m.remove(first), ts, f);
        lemma_gather_split(m.remove(ts), first, f);
        assert(m.remove(first).remove(ts) =~= m.remove(ts).remove(first));
        assert(gather(m, f) =~= m[ts].map_values(f).to_multiset().add(gather(m.remove(ts), f)));
    }
}

/// Exchanging one list exchanges what is gathered from it.
pub proof fn lemma_gather_with_waiters<C, T>(
    m: Table<C>,
    ts: u64,
    s: Seq<Waiter<C>>,
    f: spec_fn(Waiter<C>) -> T,
)
    requires
        m.dom().finite(),
    ensures
        with_waiters(m, ts, s).dom().finite(),
        gather(with_waiters(m, ts, s), f).add(waiting_for(m, ts).map_values(f).to_multiset())
            == gather(m, f).add(s.map_values(f).to_multiset()),
{
    let n = with_waiters(m, ts, s);
    let rest = m.remove(ts);
    if m.contains_key(ts) {
        lemma_gather_split(m, ts, f);
    } else {
        assert(rest =~= m);
        assert(waiting_for(m, ts).map_values(f) =~= Seq::<T>::empty());
    }
    if s.len() > 0 {
        assert(n.remove(ts) =~= rest);
        lemma_gather_split(n, ts, f);
    } else {
        assert(s.map_values(f) =~= Seq::<T>::empty());
    }
    assert(gather(n, f).add(waiting_for(m, ts).map_values(f).to_multiset()) =~= gather(m, f).add(
        s.map_values(f).to_multiset(),
    ));
}

/// A new waiter adds itself to what is gathered.
pub proof fn lemma_gather_with_waiter<C, T>(
    m: Table<C>,
    ts: u64,
    w: Waiter<C>,
    f: spec_fn(Waiter<C>) -> T,
)
    requires
        m.dom().finite(),
    ensures
        gather(with_waiter(m, ts, w), f) == gather(m, f).insert(f(w)),
{
    let old_list = waiting_for(m, ts);
    lemma_gather_with_waiters(m, ts, old_list.push(w), f);
    assert(old_list.push(w).map_values(f) =~= old_list.map_values(f).push(f(w)));
    let t = old_list.map_values(f);
    let n = with_waiter(m, ts, w);
    assert forall|x: T| #[trigger] gather(n, f).count(x) == gather(m, f).insert(f(w)).count(x) by {
        assert(gather(n, f).add(t.to_multiset()).count(x) == gather(m, f).add(
            t.push(f(w)).to_multiset(),
        ).count(x));
    }
    assert(gather(n, f) =~= gather(m, f).insert(f(w)));
}

/// The same numbers in another order are the same numbers.
pub proof fn lemma_same_members(a: Seq<u64>, b: Seq<u64>)
    requires
        a.to_multiset() == b.to_multiset(),
    ensures
        forall|x: u64| a.contains(x) == b.contains(x),
{
    assert forall|x: u64| a.contains(x) == b.contains(x) by {
        vstd::seq_lib::to_multiset_contains(a, x);
        vstd::seq_lib::to_multiset_contains(b, x);
    }
}

/// Filling the gap at `i` with the last item takes out what was at `i`.
pub proof fn lemma_swap_remove_multiset<T>(s: Seq<T>, i: int)
    requires
        0 <= i < s.len(),
    ensures
        s.update(i, s.last()).drop_last().to_multiset().insert(s[i]) == s.to_multiset(),
{
    let u = s.update(i, s.last());
    vstd::seq_lib::to_multiset_update(s, i, s.last());
    vstd::seq_lib::to_multiset_remove(u, u.len() - 1);
    assert(u.remove(u.len() - 1) =~= u.drop_last());
    assert(s.contains(s[i]));
    assert(s.contains(s.last()));
    assert(u.drop_last().to_multiset().insert(s[i]) =~= s.to_multiset());
}

/// Draining splits the list: the ready ones leave, the others stay.
pub proof fn lemma_drain_ready<C>(s: Seq<Waiter<C>>, from: int, hashes: Seq<u64>)
    requires
        0 <= from <= s.len(),
    ensures
        ({
            let (out, stay) = drain_ready(s, from, hashes);
            &&& out.len() + stay.len() == s.len()
            &&& from <= stay.len()
            &&& stay.take(from) == s.take(from)
            &&& forall|i: int| 0 <= i < out.len() ==> is_ready(#[trigger] out[i], hashes)
            &&& forall|i: int|
                from <= i < stay.len() ==> !is_ready(#[trigger] stay[i], hashes)
        }),
    decreases s.len() - from,
{
    if from < s.len() {
        let (out, stay) = drain_ready(s, from, hashes);
        if is_ready(s[from], hashes) {
            let next = s.update(from, s.last()).drop_last();
            lemma_drain_ready(next, from, hashes);
            assert(next.take(from) =~= s.take(from));
        } else {
            lemma_drain_ready(s, from + 1, hashes);
            assert(stay.take(from + 1).take(from) =~= stay.take(from));
            assert(s.take(from + 1).take(from) =~= s.take(from));
            assert(stay[from] == stay.take(from + 1)[from]);
            assert(s[from] == s.take(from + 1)[from]);
        }
    }
}

/// Draining neither loses nor doubles anything.
pub proof fn lemma_drain_conserves<C, T>(
    s: Seq<Waiter<C>>,
    from: int,
    hashes: Seq<u64>,
    f: spec_fn(Waiter<C>) -> T,
)
    requires
        0 <= from <= s.len(),
    ensures
        drain_ready(s, from, hashes).0.map_values(f).to_multiset().add(
            drain_ready(s, from, hashes).1.map_values(f).to_multiset(),
        ) == s.map_values(f).to_multiset(),
    decreases s.len() - from,
{
    let (out, stay) = drain_ready(s, from, hashes);
    if from >= s.len() {
        assert(out.map_values(f) =~= Seq::<T>::empty());
        assert(out.map_values(f).to_multiset().add(stay.map_values(f).to_multiset())
            =~= s.map_values(f).to_multiset());
    } else if is_ready(s[from], hashes) {
        let next = s.update(from, s.last()).drop_last();
        let (next_out, next_stay) = drain_ready(next, from, hashes);
        lemma_drain_conserves(next, from, hashes, f);
        let t = s.map_values(f);
        assert(next.map_values(f) =~= t.update(from, t.last()).drop_last());
        lemma_swap_remove_multiset(t, from);
        assert(out.map_values(f) =~= seq![f(s[from])] + next_out.map_values(f));
        vstd::seq_lib::lemma_multiset_commutative(seq![f(s[from])], next_out.map_values(f));
        assert(seq![f(s[from])] =~= Seq::<T>::empty().push(f(s[from])));
        assert(out.map_values(f).to_multiset() =~= next_out.map_values(f).to_multiset().insert(
            f(s[from]),
        ));
        assert(out.map_values(f).to_multiset().add(stay.map_values(f).to_multiset())
            =~= s.map_values(f).to_multiset());
    } else {
        lemma_drain_conserves(s, from + 1, hashes, f);
    }
}

/// Mapping each item to itself changes nothing.
pub proof fn lemma_map_identity<C>(s: Seq<Waiter<C>>)
    ensures
        s.map_values(|w: Waiter<C>| w) == s,
{
    assert(s.map_values(|w: Waiter<C>| w) =~= s);
}

/// As bags, those who leave and those who stay are the ready and the others.
pub proof fn lemma_drain_filters<C>(s: Seq<Waiter<C>>, hashes: Seq<u64>)
    ensures
        drain_ready(s, 0, hashes).0.to_multiset() == s.to_multiset().filter(
            |w: Waiter<C>| is_ready(w, hashes),
        ),
        drain_ready(s, 0, hashes).1.to_multiset() == s.to_multiset().filter(
            |w: Waiter<C>| !is_ready(w, hashes),
        ),
{
    let (out, stay) = drain_ready(s, 0, hashes);
    lemma_drain_ready(s, 0, hashes);
    lemma_drain_conserves(s, 0, hashes, |w: Waiter<C>| w);
    lemma_map_identity(out);
    lemma_map_identity(stay);
    lemma_map_identity(s);
    assert forall|w: Waiter<C>| is_ready(w, hashes) implies #[trigger] stay.to_multiset().count(w)
        == 0 by {
        if stay.contains(w) {
            let i = choose|i: int| 0 <= i < stay.len() && stay[i] == w;
            assert(!is_ready(stay[i], hashes));
        }
    }
    assert forall|w: Waiter<C>| !is_ready(w, hashes) implies #[trigger] out.to_multiset().count(w)
        == 0 by {
        if out.contains(w) {
            let i = choose|i: int| 0 <= i < out.len() && out[i] == w;
            assert(is_ready(out[i], hashes));
        }
    }
    assert forall|w: Waiter<C>| #[trigger]
        out.to_multiset().count(w) + stay.to_multiset().count(w) == s.to_multiset().count(w) by {
        assert(out.to_multiset().add(stay.to_multiset()).count(w) == s.to_multiset().count(w));
    }
    assert(out.to_multiset() =~= s.to_multiset().filter(|w: Waiter<C>| is_ready(w, hashes)));
    assert(stay.to_multiset() =~= s.to_multiset().filter(|w: Waiter<C>| !is_ready(w, hashes)));
}

/// There is at most one first place.
pub proof fn lemma_first_wait<C>(s: Seq<Waiter<C>>, start_ts: TimeStamp, hash: u64, i: int)
    requires
        is_first_wait(s, start_ts, hash, i),
    ensures
        first_wait(s, start_ts, hash) == Some(i),
{
    let j = choose|j: int| is_first_wait(s, start_ts, hash, j);
    assert(is_first_wait(s, start_ts, hash, j));
    assert(is_wait_of(s[i], start_ts, hash));
    assert(is_wait_of(s[j], start_ts, hash));
    assert(i == j);
}

/// There is a first place wherever there is a place.
pub proof fn lemma_some_wait<C>(s: Seq<Waiter<C>>, start_ts: TimeStamp, hash: u64, i: int)
    requires
        0 <= i < s.len(),
        is_wait_of(s[i], start_ts, hash),
    ensures
        first_wait(s, start_ts, hash) matches Some(j) && is_first_wait(s, start_ts, hash, j) && j
            <= i,
    decreases i,
{
    if forall|j: int| 0 <= j < i ==> !is_wait_of(#[trigger] s[j], start_ts, hash) {
        lemma_first_wait(s, start_ts, hash, i);
    } else {
        let j = choose|j: int| 0 <= j < i && is_wait_of(#[trigger] s[j], start_ts, hash);
        lemma_some_wait(s, start_ts, hash, j);
    }
}

/// Where nobody waits there is no first place.
pub proof fn lemma_no_wait<C>(s: Seq<Waiter<C>>, start_ts: TimeStamp, hash: u64)
    requires
        forall|i: int| 0 <= i < s.len() ==> !is_wait_of(#[trigger] s[i], start_ts, hash),
    ensures
        first_wait(s, start_ts, hash) is None,
{
    if exists|i: int| is_first_wait(s, start_ts, hash, i) {
        let i = choose|i: int| is_first_wait(s, start_ts, hash, i);
        assert(is_wait_of(s[i], start_ts, hash));
    }
}

/// What removing a waiter does to what is gathered.
pub proof fn lemma_gather_without_waiter<C, T>(
    m: Table<C>,
    start_ts: TimeStamp,
    lock: Lock,
    f: spec_fn(Waiter<C>) -> T,
)
    requires
        m.dom().finite(),
    ensures
        without_waiter(m, start_ts, lock).dom().finite(),
        match find_waiter(m, start_ts, lock) {
            Some(w) => gather(without_waiter(m, start_ts, lock), f).insert(f(w)) == gather(m, f),
            None => without_waiter(m, start_ts, lock) == m,
        },
{
    let s = waiting_for(m, lock.ts.0);
    if let Some(i) = first_wait(s, start_ts, lock.hash) {
        assert(is_first_wait(s, start_ts, lock.hash, i));
        lemma_gather_with_waiters(m, lock.ts.0, s.remove(i), f);
        let t = s.map_values(f);
        assert(s.remove(i).map_values(f) =~= t.remove(i));
        vstd::seq_lib::to_multiset_remove(t, i);
        assert(t.contains(t[i]));
        assert(t.to_multiset() =~= t.remove(i).to_multiset().insert(f(s[i])));
        let n = without_waiter(m, start_ts, lock);
        assert forall|x: T| #[trigger]
            gather(n, f).insert(f(s[i])).count(x) == gather(m, f).count(x) by {
            assert(gather(n, f).add(t.to_multiset()).count(x) == gather(m, f).add(
                t.remove(i).to_multiset(),
            ).count(x));
        }
        assert(gather(n, f).insert(f(s[i])) =~= gather(m, f));
    }
}

/// What a wake-up does to what is gathered.
pub proof fn lemma_gather_after_leaving<C, T>(
    m: Table<C>,
    ts: u64,
    hashes: Seq<u64>,
    f: spec_fn(Waiter<C>) -> T,
)
    requires
        m.dom().finite(),
    ensures
        after_leaving(m, ts, hashes).dom().finite(),
        gather(after_leaving(m, ts, hashes), f).add(
            leaving(m, ts, hashes).map_values(f).to_multiset(),
        ) == gather(m, f),
{
    let s = waiting_for(m, ts);
    let (out, stay) = drain_ready(s, 0, hashes);
    lemma_gather_with_waiters(m, ts, stay, f);
    lemma_drain_conserves(s, 0, hashes, f);
    let n = after_leaving(m, ts, hashes);
    assert forall|x: T| #[trigger]
        gather(n, f).add(out.map_values(f).to_multiset()).count(x) == gather(m, f).count(x) by {
        assert(gather(n, f).add(s.map_values(f).to_multiset()).count(x) == gather(m, f).add(
            stay.map_values(f).to_multiset(),
        ).count(x));
        assert(out.map_values(f).to_multiset().add(stay.map_values(f).to_multiset()).count(x)
            == s.map_values(f).to_multiset().count(x));
    }
    assert(gather(n, f).add(out.map_values(f).to_multiset()) =~= gather(m, f));
}

/// A walk meets everything that is in the table.
pub proof fn lemma_along_gathers<C, T>(
    m: Table<C>,
    order: Seq<u64>,
    f: spec_fn(Waiter<C>) -> T,
)
    requires
        m.dom().finite(),
        is_walk(m, order),
    ensures
        along(m, order).map_values(f).to_multiset() == gather(m, f),
    decreases order.len(),
{
    if order.len() == 0 {
        assert(m.dom() =~= Set::empty());
        assert(along(m, order).map_values(f) =~= Seq::<T>::empty());
    } else {
        let ts = order.last();
        let before = order.drop_last();
        let n = m.remove(ts);
        assert(order.to_set().contains(ts));
        assert(before.to_set() =~= n.dom()) by {
            assert forall|k: u64| before.to_set().contains(k) == n.dom().contains(k) by {
                if before.contains(k) {
                    let i = choose|i: int| 0 <= i < before.len() && before[i] == k;
                    assert(order[i] == k);
                    assert(order.to_set().contains(k));
                }
                if n.dom().contains(k) {
                    assert(order.to_set().contains(k));
                    let i = choose|i: int| 0 <= i < order.len() && order[i] == k;
                    assert(before[i] == k);
                }
            }
        }
        lemma_along_gathers(n, before, f);
        lemma_along_restrict(m, before, ts);
        lemma_gather_split(m, ts, f);
        assert(along(m, order).map_values(f) =~= along(m, before).map_values(f) + m[ts].map_values(
            f,
        ));
        vstd::seq_lib::lemma_multiset_commutative(
            along(m, before).map_values(f),
            m[ts].map_values(f),
        );
        assert(along(m, order).map_values(f).to_multiset() =~= gather(m, f));
    }
}

/// A walk over part of the table meets no more than all of it.
pub proof fn lemma_along_bounded<C>(m: Table<C>, order: Seq<u64>)
    requires
        m.dom().finite(),
        order.no_duplicates(),
        forall|i: int| 0 <= i < order.len() ==> m.contains_key(#[trigger] order[i]),
    ensures
        along(m, order).len() <= population(m),
    decreases order.len(),
{
    if order.len() > 0 {
        let ts = order.last();
        let before = order.drop_last();
        assert(m.contains_key(order[order.len() - 1]));
        assert forall|i: int| 0 <= i < before.len() implies m.remove(ts).contains_key(
            #[trigger] before[i],
        ) by {
            assert(before[i] == order[i]);
        }
        lemma_along_bounded(m.remove(ts), before);
        lemma_along_restrict(m, before, ts);
        lemma_gather_split(m, ts, |w: Waiter<C>| w);
    }
}

/// A walk does not notice lists that it does not visit.
pub proof fn lemma_along_restrict<C>(m: Table<C>, order: Seq<u64>, ts: u64)
    requires
        !order.contains(ts),
    ensures
        along(m.remove(ts), order) == along(m, order),
    decreases order.len(),
{
    if order.len() > 0 {
        assert(order.contains(order.last()));
        assert forall|k: u64| order.drop_last().contains(k) implies order.contains(k) by {
            let i = choose|i: int| 0 <= i < order.drop_last().len() && order.drop_last()[i] == k;
            assert(order[i] == k);
        }
        lemma_along_restrict(m, order.drop_last(), ts);
    }
}

/// A waiter that is found is the one that was looked for.
pub proof fn lemma_found_waits<C>(m: Table<C>, start_ts: TimeStamp, lock: Lock)
    ensures
        find_waiter(m, start_ts, lock) matches Some(w) ==> is_wait_of(w, start_ts, lock.hash),
{
    let s = waiting_for(m, lock.ts.0);
    if let Some(i) = first_wait(s, start_ts, lock.hash) {
        assert(is_first_wait(s, start_ts, lock.hash, i));
    }
}

/// Those who stay are listed where they were.
pub proof fn lemma_after_leaving_listed<C>(m: Table<C>, ts: u64, hashes: Seq<u64>)
    requires
        listed_by_lock(m),
    ensures
        listed_by_lock(after_leaving(m, ts, hashes)),
{
    let s = waiting_for(m, ts);
    let n = after_leaving(m, ts, hashes);
    let stay = drain_ready(s, 0, hashes).1;
    assert forall|k: u64, i: int| #![trigger n[k][i]]
        n.contains_key(k) && 0 <= i < n[k].len() implies n[k][i].lock.ts.0 == k by {
        if k == ts {
            lemma_drain_filters(s, hashes);
            assert(stay.contains(stay[i]));
            assert(stay.to_multiset().count(stay[i]) > 0);
            assert(s.to_multiset().count(stay[i]) > 0);
            let j = choose|j: int| 0 <= j < s.len() && s[j] == stay[i];
            assert(m[ts][j].lock.ts.0 == ts);
        } else {
            assert(m[k][i].lock.ts.0 == k);
        }
    }
}

/// As much is gathered of one thing as of another.
pub proof fn lemma_gather_len<C, T, U>(
    m: Table<C>,
    f: spec_fn(Waiter<C>) -> T,
    g: spec_fn(Waiter<C>) -> U,
)
    requires
        m.dom().finite(),
    ensures
        gather(m, f).len() == gather(m, g).len(),
    decreases m.dom().len(),
{
    if m.dom().len() > 0 {
        lemma_gather_len(m.remove(m.dom().choose()), f, g);
    }
}

/// What is gathered comes from a waiter, and each waiter contributes.
pub proof fn lemma_gather_contains<C, T>(m: Table<C>, f: spec_fn(Waiter<C>) -> T, x: T)
    requires
        m.dom().finite(),
    ensures
        gather(m, f).count(x) > 0 <==> exists|ts: u64, i: int|
            #![trigger m[ts][i]]
            m.contains_key(ts) && 0 <= i < m[ts].len() && f(m[ts][i]) == x,
    decreases m.dom().len(),
{
    if m.dom().len() == 0 {
        assert(m.dom() =~= Set::empty());
        assert forall|ts: u64| !m.contains_key(ts) by {
            assert(!m.dom().contains(ts));
        }
    } else {
        let first = m.dom().choose();
        let rest = m.remove(first);
        assert(m.dom().contains(first));
        lemma_gather_contains(rest, f, x);
        let t = m[first].map_values(f);
        if t.to_multiset().count(x) > 0 {
            assert(t.contains(x));
            let i = choose|i: int| 0 <= i < t.len() && t[i] == x;
            assert(f(m[first][i]) == x);
        }
        if gather(rest, f).count(x) > 0 {
            let (ts, i) = choose|ts: u64, i: int|
                #![trigger rest[ts][i]]
                rest.contains_key(ts) && 0 <= i < rest[ts].len() && f(rest[ts][i]) == x;
            assert(m[ts][i] == rest[ts][i]);
        }
        assert forall|ts: u64, i: int|
            #![trigger m[ts][i]]
            m.contains_key(ts) && 0 <= i < m[ts].len() && f(m[ts][i]) == x implies gather(
            m,
            f,
        ).count(x) > 0 by {
            if ts == first {
                assert(t[i] == x);
                assert(t.contains(x));
            } else {
                assert(rest[ts][i] == m[ts][i]);
            }
        }
    }
}

/// The same waiters in another order give the same images.
pub proof fn lemma_permuted_map<C, T>(
    a: Seq<Waiter<C>>,
    b: Seq<Waiter<C>>,
    f: spec_fn(Waiter<C>) -> T,
)
    requires
        a.to_multiset() == b.to_multiset(),
    ensures
        a.map_values(f).to_multiset() == b.map_values(f).to_multiset(),
    decreases a.len(),
{
    vstd::seq_lib::to_multiset_len(a);
    vstd::seq_lib::to_multiset_len(b);
    if a.len() == 0 {
        assert(a.map_values(f) =~= b.map_values(f));
    } else {
        let x = a.last();
        vstd::seq_lib::to_multiset_contains(a, x);
        vstd::seq_lib::to_multiset_contains(b, x);
        let i = choose|i: int| 0 <= i < b.len() && b[i] == x;
        let c = b.remove(i);
        assert(a.drop_last() =~= a.remove(a.len() - 1));
        lemma_permuted_map(a.drop_last(), c, f);
        assert(a.map_values(f) =~= a.drop_last().map_values(f).push(f(x)));
        assert(c.map_values(f) =~= b.map_values(f).remove(i));
        assert(b.map_values(f).contains(f(x))) by {
            assert(b.map_values(f)[i] == f(x));
        }
        vstd::seq_lib::to_multiset_remove(b.map_values(f), i);
        assert(a.map_values(f).to_multiset() =~= b.map_values(f).to_multiset());
    }
}

} // verus!
