//! One-shot, multi-consumer broadcast of a value: the waiter.
//!
//! The waiter is either still queued (holding the tickets of awaiters that
//! registered before a value arrived) or resolved (latched onto its value).
//! Providing the value is allowed once; it resolves the waiter and hands back
//! the queued tickets so each registered awaiter can be woken with the value.
//! Dropping the provider instead closes the waiter: its queued tickets are
//! handed back to be released empty, and every later awaiter observes that no
//! value will come.
//!
//! This is the sequential core of the primitive. The surrounding process
//! shares one waiter among tasks under a lock, maps tickets to one-shot
//! channels, and awaits on them.

use vstd::prelude::*;

verus! {

/// The latched value, or the tickets of the awaiters registered so far.
pub enum ValueOrQueue<T> {
    Value(T),
    Queue(Vec<u64>),
}

/// The waiter's state: its value-or-queue, whether the provider still
/// exists, and the next fresh ticket.
pub struct AsyncWaiter<T> {
    pub state: ValueOrQueue<T>,
    pub provider_alive: bool,
    pub next_ticket: u64,
}

/// The capability to resolve (or abandon) one waiter. Consumed on use.
pub struct AsyncWaiterProvider<T> {
    _marker: core::marker::PhantomData<T>,
}

/// What one registration attempt observes: the value is already there, the
/// caller must wait on the given ticket, or no value will ever come.
#[derive(PartialEq, Eq, Structural, Clone, Copy, Debug)]
pub enum GetOutcome {
    Ready,
    Wait(u64),
    Closed,
}

impl<T> AsyncWaiter<T> {
    /// The queue holds no ticket twice, none at or past the next fresh one,
    /// and a resolved waiter has no provider.
    pub open spec fn wf(self) -> bool {
        match self.state {
            ValueOrQueue::Value(_) => !self.provider_alive,
            ValueOrQueue::Queue(q) => {
                &&& forall|i: int| 0 <= i < q@.len() ==> #[trigger] q@[i] < self.next_ticket
                &&& forall|i: int, j: int| 0 <= i < j < q@.len() ==> q@[i] != q@[j]
            },
        }
    }

    /// The waiter has latched the value `v`.
    pub open spec fn resolved_to(self, v: T) -> bool {
        self.state matches ValueOrQueue::Value(x) && x == v
    }

    /// The waiter still queues awaiters.
    pub open spec fn is_queued(self) -> bool {
        self.state is Queue
    }

    /// The provider has neither provided nor been dropped.
    pub open spec fn provider_is_alive(self) -> bool {
        self.provider_alive
    }

    /// The tickets registered so far.
    pub open spec fn queue(self) -> Seq<u64>
        recommends
            self.is_queued(),
    {
        self.state->Queue_0@
    }
}

/// How one registration attempt steps the waiter: a resolved waiter is
/// unchanged and ready; a queued one with a live provider hands out its next
/// ticket and queues it; a queued one without a provider is unchanged and
/// closed.
pub open spec fn get_transition<T>(
    pre: AsyncWaiter<T>,
    post: AsyncWaiter<T>,
    outcome: GetOutcome,
) -> bool {
    match pre.state {
        ValueOrQueue::Value(_) => post == pre && outcome == GetOutcome::Ready,
        ValueOrQueue::Queue(_) => if pre.provider_alive {
            &&& outcome == GetOutcome::Wait(pre.next_ticket)
            &&& post.is_queued()
            &&& post.queue() == pre.queue().push(pre.next_ticket)
            &&& post.provider_alive
            &&& post.next_ticket == pre.next_ticket + 1
        } else {
            post == pre && outcome == GetOutcome::Closed
        },
    }
}

/// How providing `v` steps the waiter: it latches onto `v`, the provider is
/// gone, and exactly the queued tickets are woken.
pub open spec fn provide_transition<T>(
    pre: AsyncWaiter<T>,
    post: AsyncWaiter<T>,
    v: T,
    woken: Seq<u64>,
) -> bool {
    &&& pre.is_queued()
    &&& post.resolved_to(v)
    &&& !post.provider_alive
    &&& woken == pre.queue()
    &&& post.next_ticket == pre.next_ticket
}

/// How dropping the provider unused steps the waiter: it stays queued but
/// empty and without a provider, and exactly the queued tickets are released.
pub open spec fn drop_transition<T>(
    pre: AsyncWaiter<T>,
    post: AsyncWaiter<T>,
    released: Seq<u64>,
) -> bool {
    &&& pre.is_queued()
    &&& post.is_queued()
    &&& post.queue() == Seq::<u64>::empty()
    &&& !post.provider_alive
    &&& released == pre.queue()
    &&& post.next_ticket == pre.next_ticket
}

impl<T> AsyncWaiter<T> {
    /// A fresh waiter and the capability to resolve it.
    pub fn new() -> (r: (AsyncWaiter<T>, AsyncWaiterProvider<T>))
        ensures
            r.0.wf(),
            r.0.is_queued(),
            r.0.queue() == Seq::<u64>::empty(),
            r.0.provider_is_alive(),
    {
        (
            AsyncWaiter {
                state: ValueOrQueue::Queue(Vec::new()),
                provider_alive: true,
                next_ticket: 0,
            },
            AsyncWaiterProvider { _marker: core::marker::PhantomData },
        )
    }

    /// Registers one attempt to read the value: immediately ready under a
    /// resolved waiter, a fresh ticket to wait on under a queued one, closed
    /// once the provider is gone.
    pub fn inner_get(&mut self) -> (r: GetOutcome)
        requires
            old(self).wf(),
            old(self).next_ticket < u64::MAX,
        ensures
            final (self).wf(),
            get_transition(*old(self), *final (self), r),
    {
        match &mut self.state {
            ValueOrQueue::Value(_) => GetOutcome::Ready,
            ValueOrQueue::Queue(q) => {
                if self.provider_alive {
                    let ticket = self.next_ticket;
                    q.push(ticket);
                    self.next_ticket = self.next_ticket + 1;
                    GetOutcome::Wait(ticket)
                } else {
                    GetOutcome::Closed
                }
            },
        }
    }

    /// The latched value of a resolved waiter.
    pub fn value(&self) -> (r: &T)
        requires
            self.is_queued() == false,
        ensures
            self.resolved_to(*r),
    {
        match &self.state {
            ValueOrQueue::Value(v) => v,
            ValueOrQueue::Queue(_) => unreached(),
        }
    }
}

impl<T> AsyncWaiterProvider<T> {
    /// Resolves the waiter with `v`, consuming the capability; the returned
    /// tickets are the awaiters registered so far, each owed the value.
    pub fn provide(self, w: &mut AsyncWaiter<T>, value: T) -> (woken: Vec<u64>)
        requires
            old(w).wf(),
            old(w).is_queued(),
            old(w).provider_is_alive(),
        ensures
            final (w).wf(),
            provide_transition(*old(w), *final (w), value, woken@),
    {
        let mut prev = ValueOrQueue::Value(value);
        core::mem::swap(&mut w.state, &mut prev);
        w.provider_alive = false;
        match prev {
            ValueOrQueue::Queue(q) => q,
            ValueOrQueue::Value(_) => unreached(),
        }
    }

    /// Drops the capability unused: the waiter is left queued with no
    /// provider, and the returned tickets are the awaiters to release empty.
    pub fn drop_provider(self, w: &mut AsyncWaiter<T>) -> (released: Vec<u64>)
        requires
            old(w).wf(),
            old(w).is_queued(),
            old(w).provider_is_alive(),
        ensures
            final (w).wf(),
            drop_transition(*old(w), *final (w), released@),
    {
        w.provider_alive = false;
        let mut prev = ValueOrQueue::Queue(Vec::new());
        core::mem::swap(&mut w.state, &mut prev);
        match prev {
            ValueOrQueue::Queue(q) => q,
            ValueOrQueue::Value(_) => unreached(),
        }
    }
}

/// Once the value is provided, every later registration observes that same
/// value, and the waiter does not change again.
pub proof fn lemma_waiter_latches<T>(
    pre: AsyncWaiter<T>,
    post: AsyncWaiter<T>,
    v: T,
    woken: Seq<u64>,
    post2: AsyncWaiter<T>,
    outcome: GetOutcome,
)
    requires
        provide_transition(pre, post, v, woken),
        get_transition(post, post2, outcome),
    ensures
        outcome == GetOutcome::Ready,
        post2 == post,
        post2.resolved_to(v),
{
}

/// An awaiter registered before the value arrives is among the tickets woken
/// by `provide`, and the waiter ends latched onto that value.
pub proof fn lemma_registered_before_provide_is_woken<T>(
    pre: AsyncWaiter<T>,
    mid: AsyncWaiter<T>,
    t: u64,
    post: AsyncWaiter<T>,
    v: T,
    woken: Seq<u64>,
)
    requires
        pre.is_queued(),
        pre.provider_is_alive(),
        get_transition(pre, mid, GetOutcome::Wait(t)),
        provide_transition(mid, post, v, woken),
    ensures
        woken.contains(t),
        post.resolved_to(v),
{
    assert(mid.queue()[mid.queue().len() - 1] == t);
}

/// Every awaiter already registered when the provider is dropped is among
/// the released tickets, and every later registration observes that the
/// waiter is closed.
pub proof fn lemma_dropped_provider_closes<T>(
    pre: AsyncWaiter<T>,
    post: AsyncWaiter<T>,
    released: Seq<u64>,
    post2: AsyncWaiter<T>,
    outcome: GetOutcome,
)
    requires
        pre.is_queued(),
        pre.provider_is_alive(),
        drop_transition(pre, post, released),
        get_transition(post, post2, outcome),
    ensures
        released == pre.queue(),
        outcome == GetOutcome::Closed,
        post2 == post,
{
}

} // verus!
