//! The number of waiters that is shared with whoever lets them in.
use std::sync::atomic::{AtomicUsize, Ordering};
use std::sync::Arc;
use vstd::prelude::*;

verus! {

/// `AtomicUsize::fetch_sub`, asked to take `n` off `shared`, can have answered that
/// the number was `before`. Verus learns this of no `before` but by making the call.
pub open spec fn is_subtraction(shared: Arc<AtomicUsize>, n: usize, before: usize) -> bool {
    call_ensures(AtomicUsize::fetch_sub, (&*shared, n, Ordering::SeqCst), before)
}

/// `AtomicUsize::fetch_sub` was asked to take `n` off `shared`.
pub open spec fn takes_off(shared: Arc<AtomicUsize>, n: usize) -> bool {
    exists|before: usize| #[trigger] is_subtraction(shared, n, before)
}

/// A handle on the shared number of waiters. It keeps an account of the amounts
/// that it has handed to `AtomicUsize::fetch_sub` on that number. Of the value of
/// the number nothing is stated: other threads change it at any time.
pub struct WaiterCount {
    shared: Arc<AtomicUsize>,
    released: Ghost<int>,
}

impl WaiterCount {
    /// The shared number.
    pub closed spec fn shared(&self) -> Arc<AtomicUsize> {
        self.shared
    }

    /// The sum of the amounts that this handle has asked to be taken off.
    pub closed spec fn released(&self) -> int {
        self.released@
    }

    /// A handle that has not asked for anything yet.
    pub fn new(shared: Arc<AtomicUsize>) -> (count: WaiterCount)
        ensures
            count.shared() == shared,
            count.released() == 0,
    {
        WaiterCount { shared, released: Ghost(0) }
    }

    /// Asks for `n` to be taken off the shared number, which wraps around below
    /// nought.
    pub fn release(&mut self, n: usize)
        ensures
            final(self).shared() == old(self).shared(),
            takes_off(old(self).shared(), n),
            final(self).released() == old(self).released() + n,
    {
        let fetch_sub = AtomicUsize::fetch_sub;
        let before: usize = fetch_sub(&self.shared, n, Ordering::SeqCst);
        assert(is_subtraction(self.shared, n, before));
        self.released = Ghost(self.released@ + n);
    }
}

} // verus!
