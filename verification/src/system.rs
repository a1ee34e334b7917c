//! The broadcaster as a whole: registry, queue and dispatcher under any
//! interleaving of producers, connections and the dispatch loop.
//!
//! The steps below are the only ways the three parts change. Whatever the
//! order in which they happen, the events looked up so far, followed by the
//! events still waiting, are the accepted events in the order they were
//! accepted: the dispatcher never skips, repeats or reorders an event.

use crate::broadcast::recorded;
use crate::channel::{fetched, submitted, QueueView};
use crate::dispatcher::{begun, settled, DispatcherView};
use crate::event::EventView;
use crate::history::{apply, RegistryOp};
use crate::server::Handle;
use vstd::prelude::*;

verus! {

/// The three parts of a running broadcaster.
pub ghost struct SystemView {
    /// Who is bound to what.
    pub registry: Map<Seq<char>, Seq<Handle>>,
    /// The events waiting for the dispatcher.
    pub queue: QueueView,
    /// The dispatch loop.
    pub dispatcher: DispatcherView,
}

/// One thing that happens to a running broadcaster.
pub ghost enum Step {
    /// A producer offers an event to the queue.
    Submit(EventView),
    /// The queue is closed.
    Close,
    /// A connection is bound to a resource, or unbound from everything.
    Change(RegistryOp),
    /// The dispatcher decides its next action.
    Dispatch,
    /// The driver reports how the send that was due went.
    Report(bool),
}

/// Whether the queue of `s` accepts an event offered now.
pub open spec fn accepts(s: SystemView) -> bool {
    !s.queue.closed && !s.queue.is_full()
}

/// The broadcaster `s` after `t` has happened.
pub open spec fn step(s: SystemView, t: Step) -> SystemView {
    match t {
        Step::Submit(e) => SystemView { queue: submitted(s.queue, e), ..s },
        Step::Close => SystemView { queue: QueueView { closed: true, ..s.queue }, ..s },
        Step::Change(op) => SystemView { registry: apply(s.registry, op), ..s },
        Step::Dispatch => {
            let (d, q) = settled(s.dispatcher, s.queue, s.registry);
            SystemView { dispatcher: d, queue: q, ..s }
        },
        Step::Report(delivered) => SystemView {
            dispatcher: DispatcherView {
                current: recorded(s.dispatcher.current, delivered),
                ..s.dispatcher
            },
            ..s
        },
    }
}

/// The broadcaster `s` after `steps` have happened in order.
pub open spec fn run(s: SystemView, steps: Seq<Step>) -> SystemView
    decreases steps.len(),
{
    if steps.len() == 0 {
        s
    } else {
        step(run(s, steps.drop_last()), steps.last())
    }
}

/// The events that the queue accepted while `steps` happened to `s`, in the
/// order they were accepted.
pub open spec fn accepted(s: SystemView, steps: Seq<Step>) -> Seq<EventView>
    decreases steps.len(),
{
    if steps.len() == 0 {
        Seq::empty()
    } else {
        let earlier = steps.drop_last();
        match steps.last() {
            Step::Submit(e) => if accepts(run(s, earlier)) {
                accepted(s, earlier).push(e)
            } else {
                accepted(s, earlier)
            },
            _ => accepted(s, earlier),
        }
    }
}

/// The events of `s` in dispatch order: those looked up so far, then those
/// still waiting.
pub open spec fn in_order(s: SystemView) -> Seq<EventView> {
    s.dispatcher.looked_up + s.queue.pending
}

/// Looking events up moves them from the front of the queue to the end of
/// the lookups: none is skipped, repeated or reordered.
pub proof fn lemma_settled_keeps_order(
    d: DispatcherView,
    q: QueueView,
    reg: Map<Seq<char>, Seq<Handle>>,
)
    ensures
        settled(d, q, reg).0.looked_up + settled(d, q, reg).1.pending == d.looked_up + q.pending,
        settled(d, q, reg).1.closed == q.closed,
        settled(d, q, reg).1.capacity == q.capacity,
    decreases q.pending.len(),
{
    if d.current.pending.len() > 0 || q.pending.len() == 0 {
    } else {
        let e = q.pending[0];
        lemma_settled_keeps_order(begun(d, reg, e), fetched(q), reg);
        assert(d.looked_up.push(e) + q.pending.skip(1) =~= d.looked_up + q.pending);
    }
}

/// While a broadcast has a target left, the dispatcher looks up no further
/// event: broadcasts do not overlap.
pub proof fn lemma_no_overlap(d: DispatcherView, q: QueueView, reg: Map<Seq<char>, Seq<Handle>>)
    requires
        d.current.pending.len() > 0,
    ensures
        settled(d, q, reg) == (d, q),
{
}

/// Once the dispatcher has settled, it has a send due or the queue is empty.
pub proof fn lemma_settled_is_settled(
    d: DispatcherView,
    q: QueueView,
    reg: Map<Seq<char>, Seq<Handle>>,
)
    ensures
        settled(d, q, reg).0.current.pending.len() > 0 || settled(d, q, reg).1.pending.len() == 0,
    decreases q.pending.len(),
{
    if d.current.pending.len() > 0 || q.pending.len() == 0 {
    } else {
        lemma_settled_is_settled(begun(d, reg, q.pending[0]), fetched(q), reg);
    }
}

/// Whatever happens, and in whatever order, the events looked up so far
/// followed by the events still waiting are the events that were there at
/// the start followed by the accepted events, in the order they were
/// accepted.
pub proof fn lemma_dispatch_order(s: SystemView, steps: Seq<Step>)
    ensures
        in_order(run(s, steps)) == in_order(s) + accepted(s, steps),
    decreases steps.len(),
{
    if steps.len() == 0 {
        assert(in_order(s) + Seq::<EventView>::empty() =~= in_order(s));
    } else {
        let earlier = steps.drop_last();
        lemma_dispatch_order(s, earlier);
        let mid = run(s, earlier);
        match steps.last() {
            Step::Submit(e) => {
                if accepts(mid) {
                    assert(mid.dispatcher.looked_up + mid.queue.pending.push(e) =~= (
                    mid.dispatcher.looked_up + mid.queue.pending).push(e));
                    assert((in_order(s) + accepted(s, earlier)).push(e) =~= in_order(s)
                        + accepted(s, earlier).push(e));
                }
            },
            Step::Dispatch => {
                lemma_settled_keeps_order(mid.dispatcher, mid.queue, mid.registry);
            },
            _ => {},
        }
    }
}

/// In a broadcaster that starts with nothing looked up and nothing waiting,
/// the events are looked up in the order they were accepted: the lookups so
/// far are the first of the accepted events, in their order.
pub proof fn lemma_lookups_follow_submissions(s: SystemView, steps: Seq<Step>)
    requires
        s.dispatcher.looked_up.len() == 0,
        s.queue.pending.len() == 0,
    ensures
        run(s, steps).dispatcher.looked_up.len() <= accepted(s, steps).len(),
        run(s, steps).dispatcher.looked_up == accepted(s, steps).take(
            run(s, steps).dispatcher.looked_up.len() as int,
        ),
{
    lemma_dispatch_order(s, steps);
    let end = run(s, steps);
    assert(in_order(s) =~= Seq::<EventView>::empty());
    assert(in_order(s) + accepted(s, steps) =~= accepted(s, steps));
    assert(in_order(end).take(end.dispatcher.looked_up.len() as int) =~= end.dispatcher.looked_up);
}

} // verus!
