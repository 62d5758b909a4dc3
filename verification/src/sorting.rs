//! Sorting and searching as the standard library does it.
use crate::model::ascending_by_start_ts;
use crate::waiter::Waiter;
use vstd::prelude::*;

verus! {

/// In ascending order.
pub open spec fn ascending(s: Seq<u64>) -> bool {
    forall|i: int, j: int| 0 <= i <= j < s.len() ==> s[i] <= s[j]
}

/// `slice::sort_unstable` on numbers: the same numbers, in ascending order.
#[verifier::external_body]
pub(crate) fn sort_unstable(numbers: &mut Vec<u64>)
    ensures
        ascending(final(numbers)@),
        final(numbers)@.to_multiset() == old(numbers)@.to_multiset(),
{
    numbers.sort_unstable();
}

/// `slice::binary_search` on numbers in ascending order: a place where `x` is, or
/// an error where it is at none.
#[verifier::external_body]
pub(crate) fn binary_search(numbers: &Vec<u64>, x: u64) -> (place: Result<usize, usize>)
    requires
        ascending(numbers@),
    ensures
        match place {
            Ok(i) => i < numbers@.len() && numbers@[i as int] == x,
            Err(i) => i <= numbers@.len() && !numbers@.contains(x),
        },
{
    numbers.binary_search(&x)
}

/// `slice::sort_unstable_by_key` on waiters, by the number of the waiting
/// transaction: the same waiters, in ascending order of that number. The order of
/// waiters of one transaction is left open.
#[verifier::external_body]
pub(crate) fn sort_unstable_by_start_ts<C>(waiters: &mut Vec<Waiter<C>>)
    ensures
        ascending_by_start_ts(final(waiters)@),
        final(waiters)@.to_multiset() == old(waiters)@.to_multiset(),
{
    waiters.sort_unstable_by_key(|waiter| waiter.start_ts.0);
}

} // verus!
