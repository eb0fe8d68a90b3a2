use vstd::prelude::*;

use crossbeam_queue::ArrayQueue;

use crate::notification::CollectedTracings;

verus! {

/// The largest capacity a transport queue may be built with.
pub const MAX_QUEUE_CAPACITY: usize = 0x4000_0000;

#[verifier::external_type_specification]
#[verifier::external_body]
#[verifier::reject_recursive_types(T)]
pub struct ExArrayQueue<T>(ArrayQueue<T>);

/// The notifications an `ArrayQueue` holds, oldest first.
pub uninterp spec fn queue_items(q: ArrayQueue<CollectedTracings>) -> Seq<CollectedTracings>;

/// The capacity an `ArrayQueue` was built with.
pub uninterp spec fn queue_capacity(q: ArrayQueue<CollectedTracings>) -> nat;

/// `items` after one push onto a ring of capacity `cap` that drops its oldest
/// item to make room.
pub open spec fn after_force_push<T>(items: Seq<T>, cap: nat, x: T) -> Seq<T> {
    if items.len() < cap {
        items.push(x)
    } else {
        items.drop_first().push(x)
    }
}

/// `items` after pushing each of `xs` in turn.
pub open spec fn after_pushes<T>(items: Seq<T>, cap: nat, xs: Seq<T>) -> Seq<T>
    decreases xs.len(),
{
    if xs.len() == 0 {
        items
    } else {
        after_force_push(after_pushes(items, cap, xs.drop_last()), cap, xs.last())
    }
}

/// The last `n` items of `xs`, or all of them where there are fewer.
pub open spec fn last_n<T>(xs: Seq<T>, n: nat) -> Seq<T> {
    if xs.len() <= n {
        xs
    } else {
        xs.subrange(xs.len() - n, xs.len() as int)
    }
}

/// Relies on `ArrayQueue::new`: an empty queue of capacity `cap`; it panics
/// when `cap` is zero or too large to index.
#[verifier::external_body]
fn queue_new(cap: usize) -> (q: ArrayQueue<CollectedTracings>)
    requires
        0 < cap <= MAX_QUEUE_CAPACITY,
    ensures
        queue_items(q) == Seq::<CollectedTracings>::empty(),
        queue_capacity(q) == cap,
{
    ArrayQueue::new(cap)
}

/// Relies on `ArrayQueue::force_push`: appends `x`; when the queue is full
/// its oldest item is removed first and returned.
#[verifier::external_body]
fn queue_force_push(q: &mut ArrayQueue<CollectedTracings>, x: CollectedTracings) -> (r: Option<
    CollectedTracings,
>)
    ensures
        queue_capacity(*final(q)) == queue_capacity(*old(q)),
        queue_items(*final(q)) == after_force_push(
            queue_items(*old(q)),
            queue_capacity(*old(q)),
            x,
        ),
        queue_items(*old(q)).len() < queue_capacity(*old(q)) ==> r is None,
        queue_items(*old(q)).len() >= queue_capacity(*old(q)) ==> r == Some(
            queue_items(*old(q))[0],
        ),
{
    q.force_push(x)
}

/// Relies on `ArrayQueue::pop_mut`: removes and returns the oldest item, or
/// `None` when the queue is empty.
#[verifier::external_body]
fn queue_pop(q: &mut ArrayQueue<CollectedTracings>) -> (r: Option<CollectedTracings>)
    ensures
        queue_capacity(*final(q)) == queue_capacity(*old(q)),
        queue_items(*old(q)).len() == 0 ==> r is None && queue_items(*final(q)) == queue_items(
            *old(q),
        ),
        queue_items(*old(q)).len() > 0 ==> r == Some(queue_items(*old(q))[0]) && queue_items(
            *final(q),
        ) == queue_items(*old(q)).drop_first(),
{
    q.pop_mut()
}

/// Relies on `ArrayQueue::len`: the number of items held.
#[verifier::external_body]
fn queue_len(q: &ArrayQueue<CollectedTracings>) -> (r: usize)
    ensures
        r == queue_items(*q).len(),
{
    q.len()
}

/// Relies on `ArrayQueue::capacity`: the capacity the queue was built with.
#[verifier::external_body]
fn queue_cap(q: &ArrayQueue<CollectedTracings>) -> (r: usize)
    ensures
        r == queue_capacity(*q),
{
    q.capacity()
}

/// A bounded first-in first-out channel of notifications that never refuses a
/// push: when full, it discards its oldest notification to admit the new one.
pub struct TransportQueue {
    queue: ArrayQueue<CollectedTracings>,
}

impl View for TransportQueue {
    type V = Seq<CollectedTracings>;

    closed spec fn view(&self) -> Seq<CollectedTracings> {
        queue_items(self.queue)
    }
}

impl TransportQueue {
    pub closed spec fn spec_capacity(&self) -> nat {
        queue_capacity(self.queue)
    }

    /// The queue holds at most its capacity, which is positive.
    pub closed spec fn wf(&self) -> bool {
        &&& 0 < queue_capacity(self.queue) <= MAX_QUEUE_CAPACITY
        &&& queue_items(self.queue).len() <= queue_capacity(self.queue)
    }

    pub fn new(capacity: usize) -> (r: Self)
        requires
            0 < capacity <= MAX_QUEUE_CAPACITY,
        ensures
            r.wf(),
            r@ == Seq::<CollectedTracings>::empty(),
            r.spec_capacity() == capacity,
    {
        TransportQueue { queue: queue_new(capacity) }
    }

    /// Appends `n`; when the queue is full the oldest notification is
    /// discarded first and returned. The push needs exclusive access: producers
    /// on several threads share the queue behind a lock, so a push may wait for
    /// another push or a drain to finish.
    pub fn push(&mut self, n: CollectedTracings) -> (displaced: Option<CollectedTracings>)
        ensures
            old(self).wf() ==> final(self).wf(),
            final(self).spec_capacity() == old(self).spec_capacity(),
            final(self)@ == after_force_push(old(self)@, old(self).spec_capacity(), n),
            old(self)@.len() < old(self).spec_capacity() ==> displaced is None,
            old(self)@.len() >= old(self).spec_capacity() ==> displaced == Some(old(self)@[0]),
    {
        queue_force_push(&mut self.queue, n)
    }

    /// Removes every queued notification and returns them, oldest first.
    pub fn drain(&mut self) -> (r: Vec<CollectedTracings>)
        ensures
            old(self).wf() ==> final(self).wf(),
            r@ == old(self)@,
            final(self)@ == Seq::<CollectedTracings>::empty(),
            final(self).spec_capacity() == old(self).spec_capacity(),
    {
        let ghost start = self@;
        let mut out: Vec<CollectedTracings> = Vec::new();
        loop
            invariant
                out@ + self@ == start,
                self.spec_capacity() == old(self).spec_capacity(),
                start == old(self)@,
                old(self).wf() ==> self.wf(),
            ensures
                out@ == start,
                self@ == Seq::<CollectedTracings>::empty(),
            decreases self@.len(),
        {
            match queue_pop(&mut self.queue) {
                Some(x) => {
                    out.push(x);
                    assert(out@ + self@ =~= start);
                },
                None => {
                    assert(out@ =~= start);
                    assert(self@ =~= Seq::<CollectedTracings>::empty());
                    break;
                },
            }
        }
        out
    }

    pub fn len(&self) -> (r: usize)
        ensures
            r == self@.len(),
    {
        queue_len(&self.queue)
    }

    pub fn capacity(&self) -> (r: usize)
        ensures
            r == self.spec_capacity(),
    {
        queue_cap(&self.queue)
    }
}

/// One push keeps the last `cap` items of everything pushed so far.
pub proof fn lemma_last_n_push<T>(ys: Seq<T>, cap: nat, x: T)
    requires
        cap > 0,
    ensures
        after_force_push(last_n(ys, cap), cap, x) == last_n(ys.push(x), cap),
{
    let zs = ys.push(x);
    if ys.len() < cap {
        assert(ys.push(x) =~= zs);
    } else if ys.len() == cap {
        assert(ys.drop_first().push(x) =~= zs.subrange(zs.len() - cap, zs.len() as int));
    } else {
        let prev = ys.subrange(ys.len() - cap, ys.len() as int);
        assert(prev.drop_first().push(x) =~= zs.subrange(zs.len() - cap, zs.len() as int));
    }
}

/// Pushing a sequence onto a ring of positive capacity that holds at most
/// `cap` items keeps exactly the last `cap` of old and new items together, in
/// the order they arrived.
pub proof fn lemma_pushes_keep_last<T>(cap: nat, s: Seq<T>, xs: Seq<T>)
    requires
        cap > 0,
        s.len() <= cap,
    ensures
        after_pushes(s, cap, xs) == last_n(s + xs, cap),
    decreases xs.len(),
{
    if xs.len() == 0 {
        assert(s + xs =~= s);
    } else {
        let dl = xs.drop_last();
        lemma_pushes_keep_last(cap, s, dl);
        lemma_last_n_push(s + dl, cap, xs.last());
        assert((s + dl).push(xs.last()) =~= s + xs);
    }
}

/// Pushes that do not exceed the capacity are all drained, each exactly once
/// and in push order.
pub proof fn lemma_drain_returns_pushes_in_order(cap: nat, xs: Seq<CollectedTracings>)
    requires
        cap > 0,
        xs.len() <= cap,
    ensures
        after_pushes(Seq::<CollectedTracings>::empty(), cap, xs) == xs,
{
    lemma_pushes_keep_last(cap, Seq::<CollectedTracings>::empty(), xs);
    assert(Seq::<CollectedTracings>::empty() + xs =~= xs);
}

/// Pushing `cap + k` notifications keeps only the last `cap`, in arrival
/// order: the first `k` are discarded.
pub proof fn lemma_overflow_keeps_last_capacity(cap: nat, k: nat, xs: Seq<CollectedTracings>)
    requires
        cap > 0,
        xs.len() == cap + k,
    ensures
        after_pushes(Seq::<CollectedTracings>::empty(), cap, xs) == xs.subrange(k as int, xs.len() as int),
{
    lemma_pushes_keep_last(cap, Seq::<CollectedTracings>::empty(), xs);
    assert(Seq::<CollectedTracings>::empty() + xs =~= xs);
}

} // verus!
