//! Parameter streams and the endpoints that sit on them.
//!
//! A [`ParameterStream`] is a bounded first-in-first-out queue of pending
//! values. It never blocks and never fails: an enqueue on a full stream evicts
//! the oldest pending value to make room (drop-oldest), and a dequeue on an
//! empty stream returns `None`. An [`InputEndpoint`] turns a stream into a
//! sample-and-hold source; an [`OutputEndpoint`] collects what a graph renders.

use vstd::prelude::*;
use std::collections::VecDeque;

verus! {

/// The pending values after one more value was enqueued on a stream that holds
/// at most `capacity` values: the value goes to the back, and if the stream was
/// full its oldest value leaves at the front.
pub open spec fn enqueued<T>(pending: Seq<T>, capacity: nat, value: T) -> Seq<T> {
    if pending.len() < capacity {
        pending.push(value)
    } else {
        pending.skip(1).push(value)
    }
}

/// The pending values after each of `values` was enqueued, first to last.
pub open spec fn enqueued_all<T>(pending: Seq<T>, capacity: nat, values: Seq<T>) -> Seq<T>
    decreases values.len(),
{
    if values.len() == 0 {
        pending
    } else {
        enqueued(enqueued_all(pending, capacity, values.drop_last()), capacity, values.last())
    }
}

/// What the `i`-th of a run of dequeues returns (counting from zero) on a
/// stream whose pending values are `pending` and on which nothing is enqueued
/// meanwhile.
pub open spec fn nth_dequeued<T>(pending: Seq<T>, i: nat) -> Option<T> {
    if i < pending.len() {
        Some(pending[i as int])
    } else {
        None
    }
}

/// The pending values after `n` dequeues.
pub open spec fn dequeued_n<T>(pending: Seq<T>, n: nat) -> Seq<T> {
    if n < pending.len() {
        pending.skip(n as int)
    } else {
        Seq::empty()
    }
}

/// The value an input endpoint holds after `n` samples, when it held `held`
/// before them, `pending` was pending and nothing is enqueued meanwhile: the
/// newest value it has dequeued, or what it held if it has dequeued none.
pub open spec fn held_after<T>(held: T, pending: Seq<T>, n: nat) -> T {
    if n == 0 || pending.len() == 0 {
        held
    } else if n < pending.len() {
        pending[n - 1]
    } else {
        pending.last()
    }
}

/// A bounded first-in-first-out queue of pending values.
pub struct ParameterStream<T> {
    queue: VecDeque<T>,
    limit: usize,
}

impl<T> ParameterStream<T> {
    /// The pending values, oldest first.
    pub closed spec fn pending(&self) -> Seq<T> {
        self.queue@
    }

    /// The largest number of values that can be pending.
    pub closed spec fn capacity(&self) -> nat {
        self.limit as nat
    }

    /// The stream holds no more than its capacity, and its capacity is at
    /// least one.
    pub closed spec fn wf(&self) -> bool {
        &&& self.limit >= 1
        &&& self.queue@.len() <= self.limit
    }

    /// What `wf` says, for callers that cannot see inside the stream.
    pub proof fn lemma_bounded(&self)
        requires
            self.wf(),
        ensures
            self.capacity() >= 1,
            self.pending().len() <= self.capacity(),
    {
    }

    /// An empty stream for at most `capacity` pending values; a capacity of
    /// zero is raised to one.
    pub fn new(capacity: usize) -> (r: ParameterStream<T>)
        ensures
            r.wf(),
            r.pending() == Seq::<T>::empty(),
            r.capacity() == (if capacity == 0 { 1 } else { capacity as nat }),
    {
        let limit: usize = if capacity == 0 { 1 } else { capacity };
        ParameterStream { queue: VecDeque::with_capacity(limit), limit }
    }

    /// The number of pending values.
    pub fn len(&self) -> (r: usize)
        requires
            self.wf(),
        ensures
            r == self.pending().len(),
            r <= self.capacity(),
    {
        self.queue.len()
    }

    /// The capacity the stream was made with.
    pub fn limit(&self) -> (r: usize)
        ensures
            r == self.capacity(),
    {
        self.limit
    }

    /// Whether no value is pending.
    pub fn is_empty(&self) -> (r: bool)
        requires
            self.wf(),
        ensures
            r == (self.pending().len() == 0),
    {
        self.queue.len() == 0
    }

    /// Whether the next enqueue will evict the oldest pending value.
    pub fn is_full(&self) -> (r: bool)
        requires
            self.wf(),
        ensures
            r == (self.pending().len() == self.capacity()),
    {
        self.queue.len() == self.limit
    }

    /// Appends `value`. On a full stream the oldest pending value is evicted
    /// and returned; otherwise nothing is returned.
    pub fn enqueue(&mut self, value: T) -> (evicted: Option<T>)
        requires
            old(self).wf(),
        ensures
            final(self).wf(),
            final(self).capacity() == old(self).capacity(),
            final(self).pending() == enqueued(old(self).pending(), old(self).capacity(), value),
            evicted == (if old(self).pending().len() < old(self).capacity() {
                None
            } else {
                Some(old(self).pending()[0])
            }),
    {
        let evicted = if self.queue.len() >= self.limit {
            self.queue.pop_front()
        } else {
            None
        };
        self.queue.push_back(value);
        evicted
    }

    /// Removes and returns the oldest pending value, or returns `None` and
    /// changes nothing if the stream is empty.
    pub fn try_dequeue(&mut self) -> (r: Option<T>)
        requires
            old(self).wf(),
        ensures
            final(self).wf(),
            final(self).capacity() == old(self).capacity(),
            r == nth_dequeued(old(self).pending(), 0),
            final(self).pending() == dequeued_n(old(self).pending(), 1),
    {
        self.queue.pop_front()
    }
}

/// A graph input: a parameter stream read one value per sample, which keeps
/// giving out the value it read last while the stream is empty.
pub struct InputEndpoint<T> {
    stream: ParameterStream<T>,
    held: T,
}

impl<T: Copy> InputEndpoint<T> {
    /// The values waiting to be read, oldest first.
    pub closed spec fn pending(&self) -> Seq<T> {
        self.stream.pending()
    }

    /// The largest number of values that can wait.
    pub closed spec fn capacity(&self) -> nat {
        self.stream.capacity()
    }

    /// The value on the output port: the one read last, or the initial value
    /// if none was read yet.
    pub closed spec fn held(&self) -> T {
        self.held
    }

    /// The stream inside is well-formed.
    pub closed spec fn wf(&self) -> bool {
        self.stream.wf()
    }

    /// What `wf` says, for callers that cannot see inside the endpoint.
    pub proof fn lemma_bounded(&self)
        requires
            self.wf(),
        ensures
            self.capacity() >= 1,
            self.pending().len() <= self.capacity(),
    {
    }

    /// An endpoint on an empty stream of the given capacity, holding
    /// `initial` until a first value arrives.
    pub fn new(capacity: usize, initial: T) -> (r: InputEndpoint<T>)
        ensures
            r.wf(),
            r.pending() == Seq::<T>::empty(),
            r.held() == initial,
            r.capacity() == (if capacity == 0 { 1 } else { capacity as nat }),
    {
        InputEndpoint { stream: ParameterStream::new(capacity), held: initial }
    }

    /// The producer side: appends `value` to the stream, evicting (and
    /// returning) the oldest waiting value if the stream is full.
    pub fn enqueue(&mut self, value: T) -> (evicted: Option<T>)
        requires
            old(self).wf(),
        ensures
            final(self).wf(),
            final(self).capacity() == old(self).capacity(),
            final(self).held() == old(self).held(),
            final(self).pending() == enqueued(old(self).pending(), old(self).capacity(), value),
            evicted == (if old(self).pending().len() < old(self).capacity() {
                None
            } else {
                Some(old(self).pending()[0])
            }),
    {
        self.stream.enqueue(value)
    }

    /// The consumer side, once per sample: reads the next waiting value if
    /// there is one, else keeps the held value; returns the value now held.
    pub fn advance(&mut self) -> (r: T)
        requires
            old(self).wf(),
        ensures
            final(self).wf(),
            final(self).capacity() == old(self).capacity(),
            final(self).pending() == dequeued_n(old(self).pending(), 1),
            final(self).held() == held_after(old(self).held(), old(self).pending(), 1),
            r == final(self).held(),
    {
        match self.stream.try_dequeue() {
            Some(value) => {
                self.held = value;
            },
            None => {},
        }
        self.held
    }

    /// The value on the output port.
    pub fn output(&self) -> (r: T)
        ensures
            r == self.held(),
    {
        self.held
    }
}

/// A graph output: the stream onto which a graph puts one value per sample,
/// for the caller to take off.
pub struct OutputEndpoint<T> {
    stream: ParameterStream<T>,
}

impl<T> OutputEndpoint<T> {
    /// The rendered values not yet taken, oldest first.
    pub closed spec fn pending(&self) -> Seq<T> {
        self.stream.pending()
    }

    /// The largest number of values that can wait.
    pub closed spec fn capacity(&self) -> nat {
        self.stream.capacity()
    }

    /// The stream inside is well-formed.
    pub closed spec fn wf(&self) -> bool {
        self.stream.wf()
    }

    /// What `wf` says, for callers that cannot see inside the endpoint.
    pub proof fn lemma_bounded(&self)
        requires
            self.wf(),
        ensures
            self.capacity() >= 1,
            self.pending().len() <= self.capacity(),
    {
    }

    /// An endpoint on an empty stream of the given capacity.
    pub fn new(capacity: usize) -> (r: OutputEndpoint<T>)
        ensures
            r.wf(),
            r.pending() == Seq::<T>::empty(),
            r.capacity() == (if capacity == 0 { 1 } else { capacity as nat }),
    {
        OutputEndpoint { stream: ParameterStream::new(capacity) }
    }

    /// The graph side: appends the sample `value`, evicting (and returning)
    /// the oldest untaken one if the stream is full.
    pub fn push(&mut self, value: T) -> (evicted: Option<T>)
        requires
            old(self).wf(),
        ensures
            final(self).wf(),
            final(self).capacity() == old(self).capacity(),
            final(self).pending() == enqueued(old(self).pending(), old(self).capacity(), value),
            evicted == (if old(self).pending().len() < old(self).capacity() {
                None
            } else {
                Some(old(self).pending()[0])
            }),
    {
        self.stream.enqueue(value)
    }

    /// The caller's side: takes the oldest rendered value, if there is one.
    pub fn dequeue(&mut self) -> (r: Option<T>)
        requires
            old(self).wf(),
        ensures
            final(self).wf(),
            final(self).capacity() == old(self).capacity(),
            r == nth_dequeued(old(self).pending(), 0),
            final(self).pending() == dequeued_n(old(self).pending(), 1),
    {
        self.stream.try_dequeue()
    }
}


/// Whatever was pending stays bounded by the capacity through any run of
/// enqueues.
pub proof fn lemma_enqueued_all_bounded<T>(pending: Seq<T>, capacity: nat, values: Seq<T>)
    requires
        capacity >= 1,
        pending.len() <= capacity,
    ensures
        enqueued_all(pending, capacity, values).len() <= capacity,
    decreases values.len(),
{
    if values.len() > 0 {
        lemma_enqueued_all_bounded(pending, capacity, values.drop_last());
    }
}

/// As long as there is room, enqueues only append: what was pending stays in
/// front, and the new values follow in the order in which they were enqueued.
pub proof fn lemma_enqueues_append<T>(pending: Seq<T>, capacity: nat, values: Seq<T>)
    requires
        pending.len() + values.len() <= capacity,
    ensures
        enqueued_all(pending, capacity, values) == pending + values,
    decreases values.len(),
{
    if values.len() > 0 {
        lemma_enqueues_append(pending, capacity, values.drop_last());
        assert(pending + values =~= (pending + values.drop_last()).push(values.last()));
    } else {
        assert(pending + values =~= pending);
    }
}

/// First in, first out: after `values` were enqueued on an empty stream that
/// has room for all of them, the `i`-th dequeue returns the `i`-th of them, for
/// every `i` below their number.
pub proof fn lemma_fifo<T>(capacity: nat, values: Seq<T>, i: nat)
    requires
        values.len() <= capacity,
        i < values.len(),
    ensures
        nth_dequeued(enqueued_all(Seq::<T>::empty(), capacity, values), i) == Some(
            values[i as int],
        ),
{
    lemma_enqueues_append(Seq::<T>::empty(), capacity, values);
    assert(Seq::<T>::empty() + values =~= values);
}

/// Drop-oldest: after any run of enqueues the stream holds the newest values,
/// as many as fit, in the order in which they were enqueued.
pub proof fn lemma_overflow_keeps_newest<T>(pending: Seq<T>, capacity: nat, values: Seq<T>)
    requires
        capacity >= 1,
        pending.len() <= capacity,
    ensures
        enqueued_all(pending, capacity, values) == (if pending.len() + values.len()
            <= capacity {
            pending + values
        } else {
            (pending + values).skip(pending.len() + values.len() - capacity)
        }),
    decreases values.len(),
{
    if values.len() > 0 {
        let front = values.drop_last();
        lemma_overflow_keeps_newest(pending, capacity, front);
        let before = enqueued_all(pending, capacity, front);
        let all = pending + values;
        assert(all =~= (pending + front).push(values.last()));
        if pending.len() + values.len() <= capacity {
        } else if pending.len() + front.len() <= capacity {
            assert(before.skip(1).push(values.last()) =~= all.skip(1));
        } else {
            let cut = pending.len() + front.len() - capacity;
            assert(before.skip(1).push(values.last()) =~= all.skip(cut + 1));
        }
    } else {
        assert(pending + values =~= pending);
    }
}

/// A run of dequeues is what its name says: the first dequeue after `n`
/// dequeues returns what the `n`-th of the run returns, and leaves what
/// `n + 1` dequeues leave.
pub proof fn lemma_dequeue_run<T>(pending: Seq<T>, n: nat)
    ensures
        nth_dequeued(dequeued_n(pending, n), 0) == nth_dequeued(pending, n),
        dequeued_n(dequeued_n(pending, n), 1) == dequeued_n(pending, n + 1),
{
    assert(dequeued_n(dequeued_n(pending, n), 1) =~= dequeued_n(pending, n + 1));
}

/// Sample and hold: one more sample after `n` samples leaves the endpoint
/// holding what `n + 1` samples leave it holding; and an endpoint whose stream
/// is empty keeps the value it holds, however many samples pass.
pub proof fn lemma_hold<T>(held: T, pending: Seq<T>, n: nat)
    ensures
        held_after(held_after(held, pending, n), dequeued_n(pending, n), 1) == held_after(
            held,
            pending,
            n + 1,
        ),
        held_after(held, Seq::<T>::empty(), n) == held,
        n >= pending.len() ==> held_after(held, pending, n + 1) == held_after(held, pending, n),
{
}


/// A pulse is seen on exactly one sample: an endpoint on whose empty stream
/// `high` and then `low` were enqueued holds `high` after the next sample and
/// `low` after every later one.
pub proof fn lemma_pulse_seen_once<T>(held: T, high: T, low: T, samples: nat)
    ensures
        held_after(held, seq![high, low], samples) == (if samples == 0 {
            held
        } else if samples == 1 {
            high
        } else {
            low
        }),
{
}

} // verus!
