//! The deferred event queue: any number of senders feed one ordered pool
//! that the renderer drains first-in, first-out once per frame.
//!
//! Mutation is explicit here: a sender is a capability handed out by the
//! receiver, and pushing an event takes the receiver itself, so the order
//! of `add_event` calls is exactly the order of the pool.

use vstd::prelude::*;

use core::marker::PhantomData;

verus! {

/// A capability to append events to the pool of the receiver it came from.
pub struct EventSender<E> {
    marker: PhantomData<E>,
}

impl<E> Clone for EventSender<E> {
    fn clone(&self) -> (r: Self) {
        EventSender { marker: PhantomData }
    }
}

impl<E> EventSender<E> {
    /// Append an event at the back of the pool.
    pub fn add_event(&self, pool: &mut EventReciever<E>, event: E)
        ensures
            final(pool).events() == old(pool).events().push(event),
    {
        pool.pool.push(event);
    }
}

/// The ordered event pool, drained from the front.
pub struct EventReciever<E> {
    pool: Vec<E>,
}

impl<E> EventReciever<E> {
    /// The pending events, oldest first.
    pub closed spec fn events(&self) -> Seq<E> {
        self.pool@
    }

    /// An empty pool.
    pub fn new() -> (r: Self)
        ensures
            r.events() == Seq::<E>::empty(),
    {
        EventReciever { pool: Vec::new() }
    }

    /// How many events are pending.
    pub fn len(&self) -> (r: usize)
        ensures
            r as int == self.events().len(),
    {
        self.pool.len()
    }

    /// A capability to append to this pool.
    pub fn create_sender(&self) -> (r: EventSender<E>) {
        EventSender { marker: PhantomData }
    }

    /// Remove and return the oldest pending event, if any.
    pub fn poll_event(&mut self) -> (r: Option<E>)
        ensures
            old(self).events().len() == 0 ==> r is None && final(self).events() == old(self).events(),
            old(self).events().len() > 0 ==> r == Some(old(self).events()[0]) && final(self).events() == old(self).events().drop_first(),
    {
        if self.pool.len() == 0 {
            None
        } else {
            let e = self.pool.remove(0);
            proof {
                assert(self.pool@ =~= old(self).events().drop_first());
            }
            Some(e)
        }
    }
}

} // verus!
