use vstd::prelude::*;

use rtrb::{Consumer, Producer, RingBuffer};

use crate::event::MouseRawEvent;

verus! {

#[verifier::external_type_specification]
#[verifier::external_body]
#[verifier::reject_recursive_types(T)]
pub struct ExProducer<T>(Producer<T>);

#[verifier::external_type_specification]
#[verifier::external_body]
#[verifier::reject_recursive_types(T)]
pub struct ExConsumer<T>(Consumer<T>);

/// The items that sit in the ring shared by a producer end and a consumer end,
/// oldest first.
pub uninterp spec fn ring_items(p: Producer<MouseRawEvent>, c: Consumer<MouseRawEvent>) -> Seq<
    MouseRawEvent,
>;

/// Whether a producer end and a consumer end belong to the same ring.
pub uninterp spec fn same_ring(p: Producer<MouseRawEvent>, c: Consumer<MouseRawEvent>) -> bool;

/// The number of slots that the ring behind a producer end was created with.
pub uninterp spec fn ring_capacity(p: Producer<MouseRawEvent>) -> nat;

/// Relies on `rtrb::RingBuffer::new`: both ends of a fresh ring of `capacity`
/// slots, which holds nothing yet. The slots are one allocation of 16-byte
/// events, which must not exceed `isize::MAX` bytes.
#[verifier::external_body]
fn ring_new(capacity: usize) -> (r: (Producer<MouseRawEvent>, Consumer<MouseRawEvent>))
    requires
        capacity as int * 16 <= isize::MAX,
    ensures
        same_ring(r.0, r.1),
        ring_items(r.0, r.1) == Seq::<MouseRawEvent>::empty(),
        ring_capacity(r.0) == capacity,
{
    RingBuffer::new(capacity)
}

/// Relies on `rtrb::Producer::push`: the item is appended when the ring holds
/// fewer items than its capacity, and handed back otherwise. `c` is the other
/// end of the same ring, untouched; it is named so that the contract can speak
/// of the shared contents.
#[verifier::external_body]
fn ring_push(p: &mut Producer<MouseRawEvent>, c: &Consumer<MouseRawEvent>, e: MouseRawEvent) -> (r:
    bool)
    requires
        same_ring(*old(p), *c),
    ensures
        same_ring(*final(p), *c),
        r == (ring_items(*old(p), *c).len() < ring_capacity(*old(p))),
        r ==> ring_items(*final(p), *c) == ring_items(*old(p), *c).push(e),
        !r ==> ring_items(*final(p), *c) == ring_items(*old(p), *c),
        ring_capacity(*final(p)) == ring_capacity(*old(p)),
{
    p.push(e).is_ok()
}

/// Relies on `rtrb::Consumer::pop`: the oldest item leaves the ring, or
/// nothing when it is empty. `p` is the other end of the same ring, untouched;
/// it is named so that the contract can speak of the shared contents.
#[verifier::external_body]
fn ring_pop(c: &mut Consumer<MouseRawEvent>, p: &Producer<MouseRawEvent>) -> (r: Option<
    MouseRawEvent,
>)
    requires
        same_ring(*p, *old(c)),
    ensures
        same_ring(*p, *final(c)),
        ring_items(*p, *old(c)).len() == 0 ==> r is None && ring_items(*p, *final(c))
            == ring_items(*p, *old(c)),
        ring_items(*p, *old(c)).len() > 0 ==> r == Some(ring_items(*p, *old(c))[0])
            && ring_items(*p, *final(c)) == ring_items(*p, *old(c)).drop_first(),
{
    c.pop().ok()
}

/// The number of slots of a queue built with `EventQueue::with_default_capacity`.
pub const DEFAULT_CAPACITY: usize = 1024;

/// One offered item: appended while the queue holds fewer than `cap` items,
/// dropped otherwise.
pub open spec fn offer(q: Seq<MouseRawEvent>, e: MouseRawEvent, cap: nat) -> Seq<MouseRawEvent> {
    if q.len() < cap {
        q.push(e)
    } else {
        q
    }
}

/// The contents after offering each of `es` in order, with nothing taken out.
pub open spec fn offer_each(q: Seq<MouseRawEvent>, es: Seq<MouseRawEvent>, cap: nat) -> Seq<
    MouseRawEvent,
>
    decreases es.len(),
{
    if es.len() == 0 {
        q
    } else {
        offer(offer_each(q, es.drop_last(), cap), es.last(), cap)
    }
}

/// Offering events one by one, with nothing taken out, keeps exactly as many
/// of the earliest ones as there are free slots, in their order.
pub proof fn lemma_offer_each(q: Seq<MouseRawEvent>, es: Seq<MouseRawEvent>, cap: nat)
    requires
        q.len() <= cap,
    ensures
        es.len() <= cap - q.len() ==> offer_each(q, es, cap) == q + es,
        es.len() > cap - q.len() ==> offer_each(q, es, cap) == q + es.take(cap - q.len()),
    decreases es.len(),
{
    if es.len() > 0 {
        let init = es.drop_last();
        lemma_offer_each(q, init, cap);
        if es.len() <= cap - q.len() {
            assert(q + init + seq![es.last()] =~= q + es);
            assert((q + init).push(es.last()) =~= q + es);
        } else if init.len() <= cap - q.len() {
            assert(init =~= es.take(cap - q.len()));
        } else {
            assert(init.take(cap - q.len()) =~= es.take(cap - q.len()));
        }
    }
}

/// Events that all find room come out of a fresh queue exactly as they
/// went in, in the same order.
pub proof fn lemma_fifo(es: Seq<MouseRawEvent>, cap: nat)
    requires
        es.len() <= cap,
    ensures
        offer_each(Seq::<MouseRawEvent>::empty(), es, cap) == es,
{
    lemma_offer_each(Seq::<MouseRawEvent>::empty(), es, cap);
    assert(Seq::<MouseRawEvent>::empty() + es =~= es);
}

/// Offering more events than a fresh queue of `cap` slots holds, with none
/// taken out, keeps exactly the `cap` earliest and drops the other
/// `es.len() - cap`.
pub proof fn lemma_drop_on_full(es: Seq<MouseRawEvent>, cap: nat)
    requires
        es.len() > cap,
    ensures
        offer_each(Seq::<MouseRawEvent>::empty(), es, cap) == es.take(cap as int),
        es.len() - offer_each(Seq::<MouseRawEvent>::empty(), es, cap).len() == es.len() - cap,
{
    lemma_offer_each(Seq::<MouseRawEvent>::empty(), es, cap);
    assert(Seq::<MouseRawEvent>::empty() + es.take(cap as int) =~= es.take(cap as int));
}

/// A bounded first-in first-out queue of motion events over a lock-free
/// single-producer single-consumer ring; an item offered while it is full is
/// dropped.
pub struct EventQueue {
    producer: Producer<MouseRawEvent>,
    consumer: Consumer<MouseRawEvent>,
    capacity: usize,
}

impl View for EventQueue {
    type V = Seq<MouseRawEvent>;

    /// The queued events, oldest first.
    closed spec fn view(&self) -> Seq<MouseRawEvent> {
        ring_items(self.producer, self.consumer)
    }
}

impl EventQueue {
    /// The number of slots, fixed at construction.
    pub closed spec fn spec_capacity(&self) -> nat {
        self.capacity as nat
    }

    pub closed spec fn wf(&self) -> bool {
        &&& same_ring(self.producer, self.consumer)
        &&& ring_capacity(self.producer) == self.capacity
        &&& ring_items(self.producer, self.consumer).len() <= self.capacity
    }

    /// A well-formed queue never holds more events than it has slots.
    pub proof fn lemma_within_capacity(&self)
        requires
            self.wf(),
        ensures
            self@.len() <= self.spec_capacity(),
    {
    }

    /// An empty queue of `capacity` slots; the slots, 16 bytes each, must fit
    /// in one allocation.
    pub fn new(capacity: usize) -> (r: EventQueue)
        requires
            capacity as int * 16 <= isize::MAX,
        ensures
            r.wf(),
            r@ == Seq::<MouseRawEvent>::empty(),
            r.spec_capacity() == capacity,
    {
        let (producer, consumer) = ring_new(capacity);
        EventQueue { producer, consumer, capacity }
    }

    /// An empty queue of `DEFAULT_CAPACITY` slots.
    pub fn with_default_capacity() -> (r: EventQueue)
        ensures
            r.wf(),
            r@ == Seq::<MouseRawEvent>::empty(),
            r.spec_capacity() == DEFAULT_CAPACITY,
    {
        EventQueue::new(DEFAULT_CAPACITY)
    }

    pub fn capacity(&self) -> (r: usize)
        ensures
            r == self.spec_capacity(),
    {
        self.capacity
    }

    /// Appends `e` unless the queue is full; returns whether it was kept.
    pub fn push(&mut self, e: MouseRawEvent) -> (r: bool)
        requires
            old(self).wf(),
        ensures
            final(self).wf(),
            final(self).spec_capacity() == old(self).spec_capacity(),
            r == (old(self)@.len() < old(self).spec_capacity()),
            final(self)@ == offer(old(self)@, e, old(self).spec_capacity()),
    {
        ring_push(&mut self.producer, &self.consumer, e)
    }

    /// Takes out the oldest event, or returns `None` when the queue is empty.
    pub fn pop(&mut self) -> (r: Option<MouseRawEvent>)
        requires
            old(self).wf(),
        ensures
            final(self).wf(),
            final(self).spec_capacity() == old(self).spec_capacity(),
            old(self)@.len() == 0 ==> r is None && final(self)@ == old(self)@,
            old(self)@.len() > 0 ==> r == Some(old(self)@[0]) && final(self)@ == old(self)@.drop_first(),
    {
        ring_pop(&mut self.consumer, &self.producer)
    }

    /// Takes out everything queued, oldest first; the queue is empty
    /// afterwards, so a second call with nothing offered in between returns
    /// an empty sequence.
    pub fn drain(&mut self) -> (r: Vec<MouseRawEvent>)
        requires
            old(self).wf(),
        ensures
            final(self).wf(),
            final(self).spec_capacity() == old(self).spec_capacity(),
            r@ == old(self)@,
            r@.len() <= old(self).spec_capacity(),
            final(self)@ == Seq::<MouseRawEvent>::empty(),
    {
        let mut out: Vec<MouseRawEvent> = Vec::new();
        let ghost start = self@;
        loop
            invariant
                self.wf(),
                self.spec_capacity() == old(self).spec_capacity(),
                start == old(self)@,
                start.len() <= old(self).spec_capacity(),
                out@ + self@ == start,
            decreases self@.len(),
        {
            let ghost before = self@;
            match self.pop() {
                Some(e) => {
                    proof {
                        assert(out@.push(e) + self@ =~= out@ + before);
                    }
                    out.push(e);
                },
                None => {
                    assert(out@ =~= start);
                    return out;
                },
            }
        }
    }

    /// Offers each of `events` in order, dropping those that find the queue
    /// full; returns how many were dropped.
    pub fn offer_all(&mut self, events: &Vec<MouseRawEvent>) -> (dropped: usize)
        requires
            old(self).wf(),
        ensures
            final(self).wf(),
            final(self).spec_capacity() == old(self).spec_capacity(),
            final(self)@ == offer_each(old(self)@, events@, old(self).spec_capacity()),
            dropped == old(self)@.len() + events@.len() - final(self)@.len(),
    {
        let mut dropped: usize = 0;
        let mut i: usize = 0;
        while i < events.len()
            invariant
                self.wf(),
                self.spec_capacity() == old(self).spec_capacity(),
                i <= events@.len(),
                self@ == offer_each(old(self)@, events@.take(i as int), old(self).spec_capacity()),
                dropped <= i,
                dropped == old(self)@.len() + i - self@.len(),
            decreases events@.len() - i,
        {
            proof {
                assert(events@.take(i as int + 1).drop_last() =~= events@.take(i as int));
            }
            let kept = self.push(events[i]);
            if !kept {
                dropped = dropped + 1;
            }
            i = i + 1;
        }
        assert(events@.take(i as int) =~= events@);
        dropped
    }
}

} // verus!
