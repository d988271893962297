use std::task::Waker;
use vstd::prelude::*;

verus! {

#[verifier::external_type_specification]
#[verifier::external_body]
pub struct ExWaker(Waker);

/// Relies on `Waker::clone`: a handle that wakes the same task.
#[verifier::external_body]
fn copy_waker(waker: &Waker) -> Waker {
    waker.clone()
}

/// Relies on `Waker::wake`: asks the executor to poll the task again.
#[verifier::external_body]
fn wake(waker: Waker) {
    waker.wake()
}

/// The one-shot stop signal shared by a pool's handle and its worker. While
/// pending it remembers the task that last asked; closing it marks it ready
/// and wakes that task, once.
#[derive(Debug)]
pub struct PoolEndFuture {
    waker: Option<Waker>,
    ready: bool,
}

impl PoolEndFuture {
    pub closed spec fn is_ready(&self) -> bool {
        self.ready
    }

    pub closed spec fn has_waiter(&self) -> bool {
        self.waker is Some
    }

    /// Whether a close of `f` is the effective one, that stops the worker.
    pub open spec fn close_fires(f: PoolEndFuture) -> bool {
        !f.is_ready()
    }

    /// The state a close leaves: ready, with nobody left to wake.
    pub open spec fn closed_state(f: PoolEndFuture) -> bool {
        &&& f.is_ready()
        &&& !f.has_waiter()
    }

    pub fn new() -> (r: PoolEndFuture)
        ensures
            !r.is_ready(),
            !r.has_waiter(),
    {
        PoolEndFuture { waker: None, ready: false }
    }

    /// Marks the signal ready and wakes the waiting task, if any. Returns
    /// whether this call was the one that stopped the worker.
    pub fn close(&mut self) -> (fired: bool)
        ensures
            fired == PoolEndFuture::close_fires(*old(self)),
            PoolEndFuture::closed_state(*final(self)),
    {
        let fired = !self.ready;
        self.ready = true;
        if let Some(waker) = self.waker.take() {
            wake(waker);
        }
        fired
    }

    /// Whether the signal is ready; if not, `waker` is kept to be woken by
    /// the close.
    pub fn poll_ready(&mut self, waker: &Waker) -> (ready: bool)
        ensures
            ready == old(self).is_ready(),
            final(self).is_ready() == old(self).is_ready(),
            !ready ==> final(self).has_waiter(),
            ready ==> final(self).has_waiter() == old(self).has_waiter(),
    {
        if self.ready {
            true
        } else {
            self.waker = Some(copy_waker(waker));
            false
        }
    }

    pub fn is_closed(&self) -> (r: bool)
        ensures
            r == self.is_ready(),
    {
        self.ready
    }
}

/// Closing the signal again after a close (from `b`, the state the first
/// close left, to `c`) changes nothing and is not the effective one: of any
/// run of closes, only the first stops the worker.
pub proof fn close_is_idempotent(b: PoolEndFuture, c: PoolEndFuture)
    requires
        PoolEndFuture::closed_state(b),
        PoolEndFuture::closed_state(c),
    ensures
        !PoolEndFuture::close_fires(b),
        !PoolEndFuture::close_fires(c),
        c.is_ready() == b.is_ready(),
        c.has_waiter() == b.has_waiter(),
{
}

} // verus!
