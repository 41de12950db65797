//! The two ends of a `ringbuf::HeapRb`, and what is trusted of it.
//!
//! Each end keeps a ghost record of its own traffic: what was put in at the
//! one, what every look at the other came to. The records are private to this file,
//! and only the calls into `ringbuf` below move them on.
use ringbuf::traits::{Consumer, Observer, Producer, Split};
use vstd::prelude::*;

verus! {

/// The producer half of a `ringbuf::HeapRb`.
#[verifier::external_body]
#[verifier::reject_recursive_types(T)]
struct Prod<T> {
    half: ringbuf::HeapProd<T>,
}

/// The consumer half of a `ringbuf::HeapRb`.
#[verifier::external_body]
#[verifier::reject_recursive_types(T)]
struct Cons<T> {
    half: ringbuf::HeapCons<T>,
}

/// The writing end.
#[verifier::reject_recursive_types(T)]
pub(crate) struct HeapSender<T> {
    prod: Prod<T>,
    room: usize,
    sent: Ghost<Seq<T>>,
}

/// The reading end.
#[verifier::reject_recursive_types(T)]
pub(crate) struct HeapReceiver<T> {
    cons: Cons<T>,
    room: usize,
    polls: Ghost<Seq<Option<T>>>,
}

impl<T> HeapSender<T> {
    /// How many items the ring has room for.
    pub(crate) closed spec fn spec_room(&self) -> usize {
        self.room
    }

    /// Everything that was ever put in, in order.
    pub(crate) closed spec fn sent(&self) -> Seq<T> {
        self.sent@
    }

    /// How many items the ring has room for.
    pub(crate) fn room(&self) -> (r: usize)
        ensures
            r == self.spec_room(),
    {
        self.room
    }
}

impl<T> HeapReceiver<T> {
    /// How many items the ring has room for.
    pub(crate) closed spec fn spec_room(&self) -> usize {
        self.room
    }

    /// What every look for an item came to, in order: the item taken out, or
    /// nothing.
    pub(crate) closed spec fn polls(&self) -> Seq<Option<T>> {
        self.polls@
    }
}

/// `ringbuf::HeapRb::new`, its `capacity`, and `split`: the two ends of an
/// empty ring with room for as many items as were asked for. `new` panics for
/// a ring without room.
#[verifier::external_body]
pub(crate) fn heap_ring<T>(capacity: usize) -> (r: (HeapSender<T>, HeapReceiver<T>))
    requires
        capacity > 0,
    ensures
        r.0.spec_room() == capacity,
        r.0.sent() == Seq::<T>::empty(),
        r.1.spec_room() == capacity,
        r.1.polls() == Seq::<Option<T>>::empty(),
{
    let ring = ringbuf::HeapRb::<T>::new(capacity);
    let room: usize = ring.capacity().get();
    let (prod, cons) = ring.split();
    (
        HeapSender { prod: Prod { half: prod }, room, sent: Ghost(Seq::empty()) },
        HeapReceiver { cons: Cons { half: cons }, room, polls: Ghost(Seq::empty()) },
    )
}

/// `ringbuf`'s `Producer::try_push`: puts the item in behind all the others,
/// or, when it finds the ring full, hands that same item back.
///
/// Whether a ring is full depends on how far the reading thread has come. But
/// reading only makes room: as long as fewer items were ever put in than the
/// ring has room for, it cannot be full.
#[verifier::external_body]
pub(crate) fn try_push<T>(sender: &mut HeapSender<T>, item: T) -> (r: Result<(), T>)
    ensures
        final(sender).spec_room() == old(sender).spec_room(),
        final(sender).sent() == (if r is Ok {
            old(sender).sent().push(item)
        } else {
            old(sender).sent()
        }),
        r matches Err(back) ==> back == item,
        old(sender).sent().len() < old(sender).spec_room() ==> r is Ok,
{
    sender.prod.half.try_push(item)
}

/// `ringbuf`'s `Consumer::try_pop`: takes out the oldest item, or nothing when
/// it finds the ring empty. Which it is, and what the item is, depends on the
/// writing thread.
#[verifier::external_body]
pub(crate) fn try_pop<T>(receiver: &mut HeapReceiver<T>) -> (r: Option<T>)
    ensures
        final(receiver).spec_room() == old(receiver).spec_room(),
        final(receiver).polls() == old(receiver).polls().push(r),
{
    receiver.cons.half.try_pop()
}

} // verus!
