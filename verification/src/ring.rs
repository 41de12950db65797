//! The rings that carry frames from one audio thread to the next.
//!
//! Each ring is written by one thread and read by another. Between two calls of
//! one of them the other may have taken or added any number of frames, so what
//! a ring holds at a given moment is not a property of either end. What is
//! known at an end is its own traffic, and how much room the ring has.
use vstd::prelude::*;

use crate::heap_ring::{heap_ring, try_pop, try_push, HeapReceiver, HeapSender};

verus! {

/// A ring holds eight frames, about 80 ms: enough to absorb a scheduling
/// hiccup, small enough not to hide a real problem.
pub const RING_FRAMES: usize = 8;

/// The writing end of a ring.
#[verifier::reject_recursive_types(T)]
pub struct RingSender<T> {
    inner: HeapSender<T>,
}

/// The reading end of a ring.
#[verifier::reject_recursive_types(T)]
pub struct RingReceiver<T> {
    inner: HeapReceiver<T>,
}

/// The items among what looks for one came to.
pub open spec fn taken<T>(polls: Seq<Option<T>>) -> Seq<T>
    decreases polls.len(),
{
    if polls.len() == 0 {
        Seq::empty()
    } else {
        match polls.last() {
            Some(item) => taken(polls.drop_last()).push(item),
            None => taken(polls.drop_last()),
        }
    }
}

/// The two ends of a new ring for frames, with nothing in it.
pub fn frame_ring<T>() -> (r: (RingSender<T>, RingReceiver<T>))
    ensures
        r.0.spec_room() == RING_FRAMES,
        r.0.sent() == Seq::<T>::empty(),
        r.1.spec_room() == RING_FRAMES,
        r.1.polls() == Seq::<Option<T>>::empty(),
        r.1.received() == Seq::<T>::empty(),
{
    let (sender, receiver) = heap_ring(RING_FRAMES);
    (RingSender { inner: sender }, RingReceiver { inner: receiver })
}

impl<T> RingSender<T> {
    pub closed spec fn spec_room(&self) -> usize {
        self.inner.spec_room()
    }

    /// Everything that was ever added at this end, in order.
    pub closed spec fn sent(&self) -> Seq<T> {
        self.inner.sent()
    }

    /// How many items the ring has room for.
    pub fn room(&self) -> (r: usize)
        ensures
            r == self.spec_room(),
    {
        self.inner.room()
    }

    /// Add `item`, or hand it back where there is no room. Never waits.
    ///
    /// Whether there is room is up to the reading thread, except that the first
    /// items always find some.
    pub fn push(&mut self, item: T) -> (r: Result<(), T>)
        ensures
            final(self).spec_room() == old(self).spec_room(),
            final(self).sent() == (if r is Ok {
                old(self).sent().push(item)
            } else {
                old(self).sent()
            }),
            r matches Err(back) ==> back == item,
            old(self).sent().len() < old(self).spec_room() ==> r is Ok,
    {
        try_push(&mut self.inner, item)
    }
}

impl<T> RingReceiver<T> {
    pub closed spec fn spec_room(&self) -> usize {
        self.inner.spec_room()
    }

    /// What every look for an item at this end came to, in order: the item
    /// taken, or nothing.
    pub closed spec fn polls(&self) -> Seq<Option<T>> {
        self.inner.polls()
    }

    /// Everything that was ever taken at this end, in order.
    pub open spec fn received(&self) -> Seq<T> {
        taken(self.polls())
    }

    /// The next item, if one has arrived. Never waits.
    pub fn pop(&mut self) -> (r: Option<T>)
        ensures
            final(self).spec_room() == old(self).spec_room(),
            final(self).polls() == old(self).polls().push(r),
            final(self).received() == (match r {
                Some(item) => old(self).received().push(item),
                None => old(self).received(),
            }),
    {
        let r = try_pop(&mut self.inner);
        assert(self.polls().drop_last() =~= old(self).polls());
        r
    }
}

} // verus!
