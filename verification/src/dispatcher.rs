//! The dispatcher: the single consumer of the ingestion queue.
//!
//! The dispatcher decides; its driver acts. The driver asks for the next
//! action, performs it, and for a send reports how it went:
//!
//! - `Send`: send the payload to the target, then call [`Dispatcher::report`];
//! - `Wait`: nothing to do until a producer submits or the queue is closed;
//! - `Stop`: the queue is closed and drained, the dispatcher is finished.
//!
//! Events are looked up in the registry one at a time, in the order the queue
//! accepted them, and every target of an event is attempted before the next
//! event is looked up.

use crate::broadcast::{recorded, Broadcast, BroadcastView, Delivery};
use crate::channel::{fetched, EventQueue, Fetched, QueueView};
use crate::event::EventView;
use crate::server::{targets, Handle, ServerInner};
use vstd::prelude::*;

verus! {

/// What the dispatcher asks of its driver.
#[derive(Debug)]
pub enum Action {
    /// Perform this send and report its outcome.
    Send(Delivery),
    /// Nothing is waiting: come back when the queue has changed.
    Wait,
    /// The queue is closed and drained: there is nothing left to do, ever.
    Stop,
}

/// What a [`Dispatcher`] means.
pub ghost struct DispatcherView {
    /// The broadcast of the event looked up last.
    pub current: BroadcastView,
    /// Every event looked up so far, in the order of the lookups.
    pub looked_up: Seq<EventView>,
}

/// The broadcast that looking up `e` in the registry `reg` starts.
pub open spec fn broadcast_of(reg: Map<Seq<char>, Seq<Handle>>, e: EventView) -> BroadcastView {
    BroadcastView { pending: targets(reg, e.resource), payload: e.payload, failed: Seq::empty() }
}

/// The dispatcher `d` after it has looked up `e` in the registry `reg`.
pub open spec fn begun(
    d: DispatcherView,
    reg: Map<Seq<char>, Seq<Handle>>,
    e: EventView,
) -> DispatcherView {
    DispatcherView { current: broadcast_of(reg, e), looked_up: d.looked_up.push(e) }
}

/// The dispatcher and the queue once the dispatcher has something to send or
/// the queue has nothing left: while the current broadcast has no target
/// left, the oldest waiting event is taken and looked up in `reg`.
pub open spec fn settled(
    d: DispatcherView,
    q: QueueView,
    reg: Map<Seq<char>, Seq<Handle>>,
) -> (DispatcherView, QueueView)
    decreases q.pending.len(),
{
    if d.current.pending.len() > 0 || q.pending.len() == 0 {
        (d, q)
    } else {
        settled(begun(d, reg, q.pending[0]), fetched(q), reg)
    }
}

/// The state of the dispatch loop between two actions.
pub struct Dispatcher {
    current: Broadcast,
    looked_up: Ghost<Seq<EventView>>,
}

impl View for Dispatcher {
    type V = DispatcherView;

    closed spec fn view(&self) -> DispatcherView {
        DispatcherView { current: self.current@, looked_up: self.looked_up@ }
    }
}

impl Dispatcher {
    /// A dispatcher that has looked up nothing yet and has nothing to send.
    pub fn new() -> (d: Dispatcher)
        ensures
            d@ == (DispatcherView {
                current: BroadcastView {
                    pending: Seq::empty(),
                    payload: Seq::empty(),
                    failed: Seq::empty(),
                },
                looked_up: Seq::empty(),
            }),
    {
        Dispatcher {
            current: Broadcast::new(Vec::new(), String::new()),
            looked_up: Ghost(Seq::empty()),
        }
    }

    /// Decides what the driver does next.
    ///
    /// If the current broadcast has a target left, that send is due, and
    /// neither the queue nor the registry is touched. Otherwise events are
    /// taken from the front of the queue and looked up in `registry`, each
    /// starting a broadcast on a snapshot of its subscribers, until one has a
    /// target; an event whose resource has no subscriber is done with at
    /// once. With the queue drained, the driver waits if the queue is open
    /// and stops if it is closed.
    pub fn next_action(&mut self, queue: &mut EventQueue, registry: &ServerInner) -> (action:
        Action)
        ensures
            (final(self)@, final(queue)@) == settled(old(self)@, old(queue)@, registry@),
            match action {
                Action::Send(d) => {
                    &&& final(self)@.current.pending.len() > 0
                    &&& d.target == final(self)@.current.pending[0]
                    &&& d.payload@ == final(self)@.current.payload
                },
                Action::Wait => {
                    &&& final(self)@.current.pending.len() == 0
                    &&& final(queue)@.pending.len() == 0
                    &&& !final(queue)@.closed
                },
                Action::Stop => {
                    &&& final(self)@.current.pending.len() == 0
                    &&& final(queue)@.pending.len() == 0
                    &&& final(queue)@.closed
                },
            },
    {
        loop
            invariant
                settled(self@, queue@, registry@) == settled(old(self)@, old(queue)@, registry@),
            decreases queue@.pending.len(),
        {
            match self.current.next_delivery() {
                Some(d) => {
                    return Action::Send(d);
                },
                None => {},
            }
            match queue.fetch() {
                Fetched::Event(ev) => {
                    let res = ev.get_res();
                    self.current = registry.broadcast(res.as_str(), ev.build());
                    self.looked_up = Ghost(self.looked_up@.push(ev@));
                },
                Fetched::Empty => {
                    return Action::Wait;
                },
                Fetched::Closed => {
                    return Action::Stop;
                },
            }
        }
    }

    /// Takes note of how the send that was due went, and moves on.
    ///
    /// A failure is remembered with the current broadcast; it is not
    /// retried, it does not touch the registry, and the targets after it are
    /// still attempted. With no send due, nothing changes.
    pub fn report(&mut self, delivered: bool)
        ensures
            final(self)@ == (DispatcherView {
                current: recorded(old(self)@.current, delivered),
                ..old(self)@
            }),
    {
        self.current.record(delivered);
    }

    /// The targets of the current broadcast whose send failed so far.
    pub fn failed(&self) -> (failed: Vec<Handle>)
        ensures
            failed@ == self@.current.failed,
    {
        self.current.failed()
    }
}

} // verus!
