//! The ingestion queue: where producers leave events for the dispatcher.
//!
//! Events leave the queue in the order they were accepted. A queue may be
//! bounded; a producer that finds it full or closed is told so and gets its
//! event back. Closing the queue turns new events away and lets the
//! dispatcher drain what is left.

use crate::event::{Event, EventView, SerializableEvent};
use std::collections::VecDeque;
use vstd::prelude::*;

verus! {

/// Why the queue did not accept an event. The event comes back unchanged.
#[derive(Debug)]
pub enum EnqueueError {
    /// The queue is bounded and holds as many events as it may.
    Full(Event),
    /// The queue was closed.
    Closed(Event),
}

/// What the dispatcher finds when it asks the queue for the next event.
pub enum Fetched {
    /// The oldest waiting event, now taken out of the queue.
    Event(Event),
    /// Nothing is waiting, but producers may still submit.
    Empty,
    /// Nothing is waiting and the queue is closed: nothing will ever come.
    Closed,
}

/// What an [`EventQueue`] means.
pub ghost struct QueueView {
    /// The events waiting, oldest first.
    pub pending: Seq<EventView>,
    /// How many events may wait at once, if the queue is bounded.
    pub capacity: Option<nat>,
    /// Whether the queue has been closed.
    pub closed: bool,
}

impl QueueView {
    /// Whether the queue holds as many events as it may.
    pub open spec fn is_full(self) -> bool {
        self.capacity matches Some(c) && self.pending.len() >= c
    }
}

/// The queue `q` after a producer has offered `e`: `e` waits behind the
/// events already there, unless the queue is closed or full.
pub open spec fn submitted(q: QueueView, e: EventView) -> QueueView {
    if q.closed || q.is_full() {
        q
    } else {
        QueueView { pending: q.pending.push(e), ..q }
    }
}

/// The queue `q` after the dispatcher has asked it for the next event.
pub open spec fn fetched(q: QueueView) -> QueueView {
    if q.pending.len() == 0 {
        q
    } else {
        QueueView { pending: q.pending.skip(1), ..q }
    }
}

/// A first-in first-out queue of events, optionally bounded, that can be closed.
pub struct EventQueue {
    items: VecDeque<Event>,
    capacity: Option<usize>,
    closed: bool,
}

impl View for EventQueue {
    type V = QueueView;

    closed spec fn view(&self) -> QueueView {
        QueueView {
            pending: self.items@.map_values(|e: Event| e@),
            capacity: match self.capacity {
                Some(c) => Some(c as nat),
                None => None,
            },
            closed: self.closed,
        }
    }
}

impl EventQueue {
    #[verifier::type_invariant]
    spec fn within_capacity(&self) -> bool {
        self.capacity matches Some(c) ==> self.items@.len() <= c
    }

    /// An open, empty queue that accepts any number of events.
    pub fn unbounded() -> (q: EventQueue)
        ensures
            q@ == (QueueView { pending: Seq::empty(), capacity: None, closed: false }),
    {
        let q = EventQueue { items: VecDeque::new(), capacity: None, closed: false };
        assert(q@.pending =~= Seq::empty());
        q
    }

    /// An open, empty queue in which at most `capacity` events wait at once.
    pub fn bounded(capacity: usize) -> (q: EventQueue)
        ensures
            q@ == (QueueView {
                pending: Seq::empty(),
                capacity: Some(capacity as nat),
                closed: false,
            }),
    {
        let q = EventQueue { items: VecDeque::new(), capacity: Some(capacity), closed: false };
        assert(q@.pending =~= Seq::empty());
        q
    }

    /// Takes the waiting events out, leaving the queue empty.
    fn take_items(&mut self) -> (items: VecDeque<Event>)
        ensures
            items@.map_values(|e: Event| e@) == old(self)@.pending,
            old(self).capacity matches Some(c) ==> items@.len() <= c,
            final(self).capacity == old(self).capacity,
            final(self).closed == old(self).closed,
            final(self)@.capacity == old(self)@.capacity,
            final(self)@.closed == old(self)@.closed,
    {
        let mut taken = EventQueue {
            items: VecDeque::new(),
            capacity: self.capacity,
            closed: self.closed,
        };
        std::mem::swap(self, &mut taken);
        proof {
            use_type_invariant(&taken);
        }
        taken.items
    }

    /// Offers `event` to the queue.
    ///
    /// An open queue with room accepts it behind the events already waiting.
    /// A closed queue turns it away as `Closed`, a full one as `Full`; either
    /// way the queue stays as it was and the event comes back in the error.
    pub fn submit(&mut self, event: Event) -> (res: Result<(), EnqueueError>)
        ensures
            final(self)@ == submitted(old(self)@, event@),
            old(self)@.closed <==> res matches Err(EnqueueError::Closed(_)),
            !old(self)@.closed && old(self)@.is_full() <==> res matches Err(EnqueueError::Full(_)),
            res matches Err(EnqueueError::Closed(e)) ==> e == event,
            res matches Err(EnqueueError::Full(e)) ==> e == event,
    {
        proof {
            use_type_invariant(&*self);
        }
        if self.closed {
            return Err(EnqueueError::Closed(event));
        }
        let full = match self.capacity {
            Some(c) => self.items.len() >= c,
            None => false,
        };
        if full {
            return Err(EnqueueError::Full(event));
        }
        let capacity = self.capacity;
        let closed = self.closed;
        let mut items = self.take_items();
        items.push_back(event);
        *self = EventQueue { items, capacity, closed };
        assert(self@.pending =~= old(self)@.pending.push(event@));
        Ok(())
    }

    /// Builds the event that carries `inner`, serialized, to the subscribers
    /// of `res`, and offers it to the queue.
    ///
    /// The outcome says whether the queue accepted the event, never whether
    /// anyone received it. The value is serialized once, whatever the outcome.
    pub fn publish<T: SerializableEvent>(&mut self, res: &str, inner: T) -> (outcome: Result<
        (),
        EnqueueError,
    >)
        ensures
            old(self)@.closed <==> outcome matches Err(EnqueueError::Closed(_)),
            !old(self)@.closed && old(self)@.is_full() <==> outcome matches Err(
                EnqueueError::Full(_),
            ),
            outcome matches Err(EnqueueError::Closed(e)) ==> e@.resource == res@,
            outcome matches Err(EnqueueError::Full(e)) ==> e@.resource == res@,
            outcome is Err ==> final(self)@ == old(self)@,
            outcome is Ok ==> ({
                let accepted = final(self)@.pending.last();
                &&& final(self)@.pending.len() > 0
                &&& accepted.resource == res@
                &&& final(self)@ == submitted(old(self)@, accepted)
            }),
    {
        let event = Event::new(res, inner);
        self.submit(event)
    }

    /// Takes the oldest waiting event out of the queue, if there is one;
    /// otherwise says whether more may come.
    pub fn fetch(&mut self) -> (res: Fetched)
        ensures
            final(self)@ == fetched(old(self)@),
            match res {
                Fetched::Event(e) => old(self)@.pending.len() > 0 && e@ == old(self)@.pending[0],
                Fetched::Empty => old(self)@.pending.len() == 0 && !old(self)@.closed,
                Fetched::Closed => old(self)@.pending.len() == 0 && old(self)@.closed,
            },
    {
        let capacity = self.capacity;
        let closed = self.closed;
        let mut items = self.take_items();
        let front = items.pop_front();
        *self = EventQueue { items, capacity, closed };
        match front {
            Some(e) => {
                assert(self@.pending =~= old(self)@.pending.skip(1));
                Fetched::Event(e)
            },
            None => {
                assert(self@.pending =~= old(self)@.pending);
                if closed {
                    Fetched::Closed
                } else {
                    Fetched::Empty
                }
            },
        }
    }

    /// Closes the queue: from now on it accepts nothing. The events already
    /// waiting stay, in their order, for the dispatcher to drain.
    pub fn close(&mut self)
        ensures
            final(self)@ == (QueueView { closed: true, ..old(self)@ }),
    {
        let capacity = self.capacity;
        let items = self.take_items();
        *self = EventQueue { items, capacity, closed: true };
    }

    /// How many events are waiting: in a bounded queue, never more than its
    /// capacity.
    pub fn len(&self) -> (n: usize)
        ensures
            n == self@.pending.len(),
            self@.capacity matches Some(c) ==> n <= c,
    {
        proof {
            use_type_invariant(self);
        }
        self.items.len()
    }

    /// How many events may wait at once, if the queue is bounded.
    pub fn capacity(&self) -> (capacity: Option<usize>)
        ensures
            match capacity {
                Some(c) => self@.capacity == Some(c as nat),
                None => self@.capacity is None,
            },
    {
        self.capacity
    }

    /// Whether no event is waiting.
    pub fn is_empty(&self) -> (empty: bool)
        ensures
            empty <==> self@.pending.len() == 0,
    {
        self.items.len() == 0
    }

    /// Whether the queue has been closed.
    pub fn is_closed(&self) -> (closed: bool)
        ensures
            closed == self@.closed,
    {
        self.closed
    }
}

} // verus!
