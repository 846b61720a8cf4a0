//! The two wait-free queues that carry everything across the audio-thread boundary: commands
//! inbound, retired resources outbound.
//!
//! Both are single-producer, single-consumer rings of the `rtrb` crate. A ring is allocated once,
//! up front; neither end allocates afterwards, and a full ring hands a rejected value back instead
//! of dropping it.

use core::mem::size_of;

use vstd::prelude::*;

verus! {

/// `rtrb`'s writing handle.
#[verifier::external_type_specification]
#[verifier::external_body]
#[verifier::reject_recursive_types(T)]
pub struct ExProducer<T>(rtrb::Producer<T>);

/// `rtrb`'s reading handle.
#[verifier::external_type_specification]
#[verifier::external_body]
#[verifier::reject_recursive_types(T)]
pub struct ExConsumer<T>(rtrb::Consumer<T>);

/// The producing end of a ring.
///
/// Some figures are kept of it for the contracts alone: which ring it belongs to; everything it has
/// sent, in order; and a number of slots that are known to be free. The consumer only ever frees
/// slots, so what is known to be free stays free until this end fills it.
#[verifier::reject_recursive_types(T)]
pub struct RingProducer<T> {
    inner: rtrb::Producer<T>,
    ring: Ghost<(int, nat)>,
    sent: Ghost<Seq<T>>,
    free: Ghost<nat>,
}

/// The consuming end of a ring.
///
/// Some figures are kept of it for the contracts alone: which ring it belongs to; everything it has
/// taken, in order; the values that are known to be waiting, from the front on; how often it has
/// looked for a value, and whether the last look found none. The producer only ever adds at the
/// back, so what is known to be waiting comes out next.
#[verifier::reject_recursive_types(T)]
pub struct RingConsumer<T> {
    inner: rtrb::Consumer<T>,
    ring: Ghost<(int, nat)>,
    taken: Ghost<Seq<T>>,
    waiting: Ghost<Seq<T>>,
    looks: Ghost<nat>,
    found_empty: Ghost<bool>,
}

impl<T> RingProducer<T> {
    /// The ring this end belongs to: a number that no other ring has, and how many slots there are.
    pub closed spec fn ring(&self) -> (int, nat) {
        self.ring@
    }

    /// How many slots the ring has.
    pub open spec fn capacity(&self) -> nat {
        self.ring().1
    }

    /// Everything this end has sent, in order.
    pub closed spec fn sent(&self) -> Seq<T> {
        self.sent@
    }

    /// How many slots are known to be free.
    pub closed spec fn known_free(&self) -> nat {
        if self.free@ <= self.ring@.1 {
            self.free@
        } else {
            self.ring@.1
        }
    }

    /// No more slots are known to be free than there are.
    pub proof fn no_more_is_free_than_there_is(&self)
        ensures
            self.known_free() <= self.capacity(),
    {
    }
}

impl<T> RingConsumer<T> {
    /// The ring this end belongs to: a number that no other ring has, and how many slots there are.
    pub closed spec fn ring(&self) -> (int, nat) {
        self.ring@
    }

    /// How many slots the ring has.
    pub open spec fn capacity(&self) -> nat {
        self.ring().1
    }

    /// Everything this end has taken, in order.
    pub closed spec fn taken(&self) -> Seq<T> {
        self.taken@
    }

    /// The values that are known to be waiting, from the front on.
    pub closed spec fn waiting(&self) -> Seq<T> {
        self.waiting@
    }

    /// The value at the front, if one is known to be there.
    pub open spec fn front(&self) -> Option<T> {
        if self.waiting().len() > 0 {
            Some(self.waiting()[0])
        } else {
            None
        }
    }

    /// How often this end has looked for a value.
    pub closed spec fn looks(&self) -> nat {
        self.looks@
    }

    /// Whether the last look found the ring empty.
    pub closed spec fn found_empty(&self) -> bool {
        self.found_empty@
    }
}

/// The largest capacity that a ring of `T` can be allocated with.
pub open spec fn largest_capacity<T>() -> nat {
    if vstd::layout::size_of::<T>() == 0 {
        (usize::MAX / 2) as nat
    } else {
        (isize::MAX as nat) / vstd::layout::size_of::<T>()
    }
}

/// How many slots a ring has that was asked for with `capacity`.
pub open spec fn granted<T>(capacity: usize) -> nat {
    if capacity <= largest_capacity::<T>() {
        capacity as nat
    } else {
        largest_capacity::<T>()
    }
}

/// Calls `rtrb::RingBuffer::new`, which allocates `capacity` slots and returns the two ends of an
/// empty ring of their own: nothing has been sent or taken, and all slots are free. It panics where
/// the slots would exceed the address space, hence the precondition.
#[verifier::external_body]
fn new_ring<T>(capacity: usize) -> (ends: (RingProducer<T>, RingConsumer<T>))
    requires
        capacity <= largest_capacity::<T>(),
    ensures
        ends.0.ring() == ends.1.ring(),
        ends.0.capacity() == capacity,
        ends.0.sent() == Seq::<T>::empty(),
        ends.0.known_free() == capacity,
        ends.1.taken() == Seq::<T>::empty(),
        ends.1.waiting() == Seq::<T>::empty(),
        ends.1.looks() == 0,
        !ends.1.found_empty(),
{
    let (producer, consumer) = rtrb::RingBuffer::<T>::new(capacity);
    let (ring, sent, free) = (Ghost(arbitrary()), Ghost(Seq::empty()), Ghost(capacity as nat));
    let (taken, waiting, looks) = (Ghost(Seq::empty()), Ghost(Seq::empty()), Ghost(0));
    let found_empty = Ghost(false);
    (
        RingProducer { inner: producer, ring, sent, free },
        RingConsumer { inner: consumer, ring, taken, waiting, looks, found_empty },
    )
}

/// Calls `rtrb::Producer::push`, which appends the value if there is a free slot and hands it back
/// otherwise. A slot that is known to be free is free.
#[verifier::external_body]
fn push_value<T>(producer: &mut RingProducer<T>, value: T) -> (result: Result<(), T>)
    ensures
        final(producer).ring() == old(producer).ring(),
        old(producer).known_free() > 0 ==> result is Ok,
        result is Ok ==> final(producer).sent() == old(producer).sent().push(value)
            && final(producer).known_free() == if old(producer).known_free() > 0 {
            (old(producer).known_free() - 1) as nat
        } else {
            0
        },
        result matches Err(back) ==> back == value && final(producer).sent() == old(producer).sent()
            && final(producer).known_free() == 0,
{
    match producer.inner.push(value) {
        Ok(()) => Ok(()),
        Err(rtrb::PushError::Full(back)) => Err(back),
    }
}

/// Calls `rtrb::Producer::slots`, which counts the free slots: those there are, less those that are
/// occupied. There may be more by the time the result is used, never fewer.
#[verifier::external_body]
fn count_free<T>(producer: &mut RingProducer<T>) -> (slots: usize)
    ensures
        final(producer).ring() == old(producer).ring(),
        old(producer).known_free() <= slots <= old(producer).capacity(),
        final(producer).known_free() == slots,
        final(producer).sent() == old(producer).sent(),
{
    producer.inner.slots()
}

/// Calls `rtrb::Producer::is_abandoned`. Whether the other end still exists is a question of
/// timing, so nothing is said of the answer; nor that an end, once abandoned, stays so, which would
/// relate one call to the next.
#[verifier::external_body]
fn producer_abandoned<T>(producer: &RingProducer<T>) -> bool {
    producer.inner.is_abandoned()
}

/// The values that are known to be waiting after the front one, whatever it was, has been taken.
pub open spec fn behind_the_front<T>(waiting: Seq<T>) -> Seq<T> {
    if waiting.len() > 0 {
        waiting.skip(1)
    } else {
        waiting
    }
}

/// The values that are known to be waiting after a look at the front has shown `value`.
pub open spec fn having_seen<T>(waiting: Seq<T>, value: Option<T>) -> Seq<T> {
    match value {
        Some(v) => if waiting.len() > 0 {
            waiting
        } else {
            seq![v]
        },
        None => Seq::empty(),
    }
}

/// Calls `rtrb::Consumer::pop`, which takes the front value out, if there is one. What is known to
/// be waiting is there, and comes out in order. Which value the other end has put in beyond that,
/// or whether it has by now, is not said here.
#[verifier::external_body]
fn pop_value<T>(consumer: &mut RingConsumer<T>) -> (value: Option<T>)
    ensures
        final(consumer).ring() == old(consumer).ring(),
        old(consumer).waiting().len() > 0 ==> value == Some(old(consumer).waiting()[0]),
        value matches Some(v) ==> final(consumer).taken() == old(consumer).taken().push(v),
        value is None ==> final(consumer).taken() == old(consumer).taken(),
        final(consumer).waiting() == behind_the_front(old(consumer).waiting()),
        final(consumer).looks() == old(consumer).looks() + 1,
        final(consumer).found_empty() == (value is None),
{
    consumer.inner.pop().ok()
}

/// Calls `rtrb::Consumer::peek`, which shows the front value, if there is one, and leaves it in
/// place.
#[verifier::external_body]
fn peek_value<T>(consumer: &mut RingConsumer<T>) -> (value: Option<&T>)
    ensures
        final(consumer).ring() == old(consumer).ring(),
        old(consumer).waiting().len() > 0 ==> value is Some && *value->0
            == old(consumer).waiting()[0],
        final(consumer).waiting() == having_seen(
            old(consumer).waiting(),
            match value {
                Some(v) => Some(*v),
                None => None,
            },
        ),
        final(consumer).taken() == old(consumer).taken(),
        final(consumer).looks() == old(consumer).looks() + 1,
        final(consumer).found_empty() == (value is None),
{
    consumer.inner.peek().ok()
}

/// Calls `rtrb::Consumer::is_abandoned`. Whether the other end still exists is a question of
/// timing, so nothing is said of the answer; nor that an end, once abandoned, stays so, which would
/// relate one call to the next.
#[verifier::external_body]
fn consumer_abandoned<T>(consumer: &RingConsumer<T>) -> bool {
    consumer.inner.is_abandoned()
}

/// Compares `rtrb::Producer::buffer` with `rtrb::Consumer::buffer`, which are equal exactly if the
/// two handles share one ring: what is compared is the address of the ring, and each handle keeps
/// its own alive. While both are in one hand neither end moves. What has been taken is then the
/// first part of what was sent, in the same order; the rest is waiting, and fills as many slots.
#[verifier::external_body]
fn share_a_buffer<T>(producer: &mut RingProducer<T>, consumer: &mut RingConsumer<T>) -> (same: bool)
    ensures
        same == (old(producer).ring() == old(consumer).ring()),
        final(producer).ring() == old(producer).ring(),
        final(producer).sent() == old(producer).sent(),
        final(consumer).ring() == old(consumer).ring(),
        final(consumer).taken() == old(consumer).taken(),
        final(consumer).looks() == old(consumer).looks(),
        final(consumer).found_empty() == old(consumer).found_empty(),
        !same ==> final(producer).known_free() == old(producer).known_free()
            && final(consumer).waiting() == old(consumer).waiting(),
        same ==> old(consumer).taken().is_prefix_of(old(producer).sent())
            && final(consumer).waiting() == old(producer).sent().skip(
            old(consumer).taken().len() as int,
        ),
        same ==> old(consumer).waiting().is_prefix_of(final(consumer).waiting()),
        same ==> final(producer).known_free() + final(consumer).waiting().len()
            == old(producer).capacity(),
{
    producer.inner.buffer() == consumer.inner.buffer()
}

/// Whether two ends belong to the same ring. If they do, values have come out in the order in
/// which they went in, none skipped and none twice; what has not come out is known to be waiting;
/// and every slot that does not hold such a value is known to be free.
pub fn same_ring<T>(producer: &mut RingProducer<T>, consumer: &mut RingConsumer<T>) -> (same: bool)
    ensures
        same == (old(producer).ring() == old(consumer).ring()),
        final(producer).ring() == old(producer).ring(),
        final(producer).sent() == old(producer).sent(),
        final(consumer).ring() == old(consumer).ring(),
        final(consumer).taken() == old(consumer).taken(),
        final(consumer).looks() == old(consumer).looks(),
        final(consumer).found_empty() == old(consumer).found_empty(),
        !same ==> final(producer).known_free() == old(producer).known_free()
            && final(consumer).waiting() == old(consumer).waiting(),
        same ==> old(consumer).taken().is_prefix_of(old(producer).sent())
            && final(consumer).waiting() == old(producer).sent().skip(
            old(consumer).taken().len() as int,
        ),
        same ==> old(consumer).waiting().is_prefix_of(final(consumer).waiting()),
        same ==> final(producer).known_free() + final(consumer).waiting().len()
            == old(producer).capacity(),
{
    share_a_buffer(producer, consumer)
}

/// Allocates a ring of `capacity` elements, or of as many as the address space holds if those are
/// fewer, and splits it into its two ends.
pub fn ring<T>(capacity: usize) -> (ends: (RingProducer<T>, RingConsumer<T>))
    ensures
        ends.0.ring() == ends.1.ring(),
        ends.0.capacity() == granted::<T>(capacity),
        ends.0.sent() == Seq::<T>::empty(),
        ends.0.known_free() == granted::<T>(capacity),
        ends.1.taken() == Seq::<T>::empty(),
        ends.1.waiting() == Seq::<T>::empty(),
        ends.1.looks() == 0,
        !ends.1.found_empty(),
{
    let size: usize = size_of::<T>();
    let limit: usize = if size == 0 {
        usize::MAX / 2
    } else {
        isize::MAX as usize / size
    };
    if capacity <= limit {
        new_ring(capacity)
    } else {
        new_ring(limit)
    }
}

impl<T> RingProducer<T> {
    /// Pushes `value`, handing it back if the ring is full. Never drops it: a caller that gets it
    /// back keeps it and tries again.
    pub fn try_push(&mut self, value: T) -> (result: Result<(), T>)
        ensures
            final(self).ring() == old(self).ring(),
            old(self).known_free() > 0 ==> result is Ok,
            result is Ok ==> final(self).sent() == old(self).sent().push(value)
                && final(self).known_free() == if old(self).known_free() > 0 {
                (old(self).known_free() - 1) as nat
            } else {
                0
            },
            result matches Err(back) ==> back == value && final(self).sent() == old(self).sent()
                && final(self).known_free() == 0,
    {
        push_value(self, value)
    }

    /// How many slots are free. There may be more by the time the answer is used, never fewer.
    pub fn slots(&mut self) -> (slots: usize)
        ensures
            final(self).ring() == old(self).ring(),
            old(self).known_free() <= slots <= old(self).capacity(),
            final(self).known_free() == slots,
            final(self).sent() == old(self).sent(),
    {
        count_free(self)
    }

    /// Whether the consuming end has been dropped.
    pub fn is_abandoned(&self) -> bool {
        producer_abandoned(self)
    }
}

impl<T> RingConsumer<T> {
    /// Pops the oldest element, if there is one.
    pub fn try_pop(&mut self) -> (value: Option<T>)
        ensures
            final(self).ring() == old(self).ring(),
            old(self).waiting().len() > 0 ==> value == Some(old(self).waiting()[0]),
            value matches Some(v) ==> final(self).taken() == old(self).taken().push(v),
            value is None ==> final(self).taken() == old(self).taken(),
            final(self).waiting() == behind_the_front(old(self).waiting()),
            final(self).looks() == old(self).looks() + 1,
            final(self).found_empty() == (value is None),
    {
        pop_value(self)
    }

    /// Shows the oldest element, if there is one, and leaves it in the ring.
    pub fn peek(&mut self) -> (value: Option<&T>)
        ensures
            final(self).ring() == old(self).ring(),
            old(self).waiting().len() > 0 ==> value is Some && *value->0 == old(self).waiting()[0],
            final(self).waiting() == having_seen(
                old(self).waiting(),
                match value {
                    Some(v) => Some(*v),
                    None => None,
                },
            ),
            final(self).taken() == old(self).taken(),
            final(self).looks() == old(self).looks() + 1,
            final(self).found_empty() == (value is None),
    {
        peek_value(self)
    }

    /// Whether the producing end has been dropped.
    pub fn is_abandoned(&self) -> bool {
        consumer_abandoned(self)
    }
}

/// A ring never holds more than it has slots for: with both ends in hand, what has been sent and
/// not yet taken fits into it. So no push into a full ring can have succeeded.
pub proof fn a_ring_holds_no_more_than_its_slots<T>(
    producer: RingProducer<T>,
    consumer: RingConsumer<T>,
)
    requires
        consumer.taken().is_prefix_of(producer.sent()),
        consumer.waiting() == producer.sent().skip(consumer.taken().len() as int),
        producer.known_free() + consumer.waiting().len() == producer.capacity(),
    ensures
        producer.sent().len() - consumer.taken().len() <= producer.capacity(),
{
}

} // verus!
