use vstd::prelude::*;

use ringbuffer::{AllocRingBuffer, RingBuffer};

use crate::notification::CollectedEvent;
use crate::transport::after_force_push;

verus! {

/// The largest number of events the history may retain.
pub const MAX_HISTORY_CAPACITY: usize = 0x4000_0000;

#[verifier::external_type_specification]
#[verifier::external_body]
#[verifier::reject_recursive_types(T)]
pub struct ExAllocRingBuffer<T>(AllocRingBuffer<T>);

/// The events an `AllocRingBuffer` holds, oldest first.
pub uninterp spec fn ring_items(r: AllocRingBuffer<CollectedEvent>) -> Seq<CollectedEvent>;

/// The capacity an `AllocRingBuffer` was built with.
pub uninterp spec fn ring_capacity(r: AllocRingBuffer<CollectedEvent>) -> nat;

/// `events` after appending `e` to a history of capacity `cap` that evicts its
/// oldest entry once full.
pub open spec fn history_push(events: Seq<CollectedEvent>, cap: nat, e: CollectedEvent) -> Seq<
    CollectedEvent,
> {
    after_force_push(events, cap, e)
}

/// Relies on `AllocRingBuffer::new`: an empty ring of capacity `cap`; it
/// panics when `cap` is zero.
#[verifier::external_body]
fn ring_new(cap: usize) -> (r: AllocRingBuffer<CollectedEvent>)
    requires
        0 < cap <= MAX_HISTORY_CAPACITY,
    ensures
        ring_items(r) == Seq::<CollectedEvent>::empty(),
        ring_capacity(r) == cap,
{
    AllocRingBuffer::new(cap)
}

/// Relies on `RingBuffer::push` of `AllocRingBuffer`: appends `e`, first
/// dropping the oldest entry when the ring is full.
#[verifier::external_body]
fn ring_push(r: &mut AllocRingBuffer<CollectedEvent>, e: CollectedEvent)
    ensures
        ring_capacity(*final(r)) == ring_capacity(*old(r)),
        ring_items(*final(r)) == history_push(ring_items(*old(r)), ring_capacity(*old(r)), e),
{
    r.push(e)
}

/// Relies on `RingBuffer::len` of `AllocRingBuffer`: the number of entries held.
#[verifier::external_body]
fn ring_len(r: &AllocRingBuffer<CollectedEvent>) -> (n: usize)
    ensures
        n == ring_items(*r).len(),
{
    r.len()
}

/// Relies on `RingBuffer::get` of `AllocRingBuffer`: `None` when empty, else
/// the entry at `index` modulo the length, counted from the oldest.
#[verifier::external_body]
fn ring_get(r: &AllocRingBuffer<CollectedEvent>, index: usize) -> (e: Option<&CollectedEvent>)
    ensures
        ring_items(*r).len() == 0 ==> e is None,
        ring_items(*r).len() > 0 ==> e == Some(&ring_items(*r)[index as int % ring_items(*r).len() as int]),
{
    r.get(index)
}

/// A fixed-capacity, insertion-ordered store of events that evicts its oldest
/// entry once full.
pub struct History {
    ring: AllocRingBuffer<CollectedEvent>,
}

impl View for History {
    type V = Seq<CollectedEvent>;

    closed spec fn view(&self) -> Seq<CollectedEvent> {
        ring_items(self.ring)
    }
}

impl History {
    pub closed spec fn spec_capacity(&self) -> nat {
        ring_capacity(self.ring)
    }

    /// The history holds at most its capacity, which is positive.
    pub closed spec fn wf(&self) -> bool {
        &&& 0 < ring_capacity(self.ring) <= MAX_HISTORY_CAPACITY
        &&& ring_items(self.ring).len() <= ring_capacity(self.ring)
    }

    /// A well-formed history holds at most its capacity, which is positive.
    pub proof fn lemma_wf_bounds(&self)
        requires
            self.wf(),
        ensures
            self.spec_capacity() > 0,
            self@.len() <= self.spec_capacity(),
    {
    }

    pub fn new(capacity: usize) -> (r: Self)
        requires
            0 < capacity <= MAX_HISTORY_CAPACITY,
        ensures
            r.wf(),
            r@ == Seq::<CollectedEvent>::empty(),
            r.spec_capacity() == capacity,
    {
        History { ring: ring_new(capacity) }
    }

    pub fn push(&mut self, e: CollectedEvent)
        requires
            old(self).wf(),
        ensures
            final(self).wf(),
            final(self).spec_capacity() == old(self).spec_capacity(),
            final(self)@ == history_push(old(self)@, old(self).spec_capacity(), e),
    {
        ring_push(&mut self.ring, e)
    }

    pub fn len(&self) -> (n: usize)
        ensures
            n == self@.len(),
    {
        ring_len(&self.ring)
    }

    /// The entry at `index`, counted from the oldest.
    pub fn get(&self, index: usize) -> (e: Option<&CollectedEvent>)
        ensures
            index < self@.len() ==> e == Some(&self@[index as int]),
            index >= self@.len() ==> e is None,
    {
        let n = ring_len(&self.ring);
        if index < n {
            let e = ring_get(&self.ring, index);
            assert(index as int % n as int == index as int) by (nonlinear_arith)
                requires
                    0 <= index < n,
            ;
            e
        } else {
            None
        }
    }
}

} // verus!
