//! The fan-out of one event to the subscribers of its resource.
//!
//! A [`Broadcast`] is a snapshot: the handles that were bound to the event's
//! resource when the event was looked up, and the payload each of them is to
//! receive. Its driver asks for the next delivery, performs the send, and
//! reports how it went. Every target is attempted once, in order, whatever
//! happened to the sends before it.

use crate::server::Handle;
use vstd::prelude::*;

verus! {

/// One send that the driver is asked to perform.
#[derive(Debug)]
pub struct Delivery {
    /// The connection to send to.
    pub target: Handle,
    /// What to send.
    pub payload: String,
}

/// What a [`Broadcast`] means.
pub ghost struct BroadcastView {
    /// The targets not attempted yet, next first.
    pub pending: Seq<Handle>,
    /// The payload each target receives.
    pub payload: Seq<char>,
    /// The targets whose send failed, in the order they were attempted.
    pub failed: Seq<Handle>,
}

/// The broadcast `b` once the outcome of its next delivery is known: that
/// target is done with, delivered or not, and the next one is due.
pub open spec fn recorded(b: BroadcastView, delivered: bool) -> BroadcastView {
    if b.pending.len() == 0 {
        b
    } else {
        BroadcastView {
            pending: b.pending.skip(1),
            payload: b.payload,
            failed: if delivered {
                b.failed
            } else {
                b.failed.push(b.pending[0])
            },
        }
    }
}

/// The fan-out of one payload to a fixed list of targets.
pub struct Broadcast {
    targets: Vec<Handle>,
    payload: String,
    next: usize,
    failed: Vec<Handle>,
}

impl View for Broadcast {
    type V = BroadcastView;

    closed spec fn view(&self) -> BroadcastView {
        BroadcastView {
            pending: if self.next <= self.targets.len() {
                self.targets@.skip(self.next as int)
            } else {
                Seq::empty()
            },
            payload: self.payload@,
            failed: self.failed@,
        }
    }
}

impl Broadcast {
    /// The broadcast of `payload` to `targets`, none of them attempted yet.
    pub fn new(targets: Vec<Handle>, payload: String) -> (b: Broadcast)
        ensures
            b@ == (BroadcastView { pending: targets@, payload: payload@, failed: Seq::empty() }),
    {
        let b = Broadcast { targets, payload, next: 0, failed: Vec::new() };
        assert(b.targets@.skip(0) =~= b.targets@);
        b
    }

    /// The send that is due, if any target is left.
    pub fn next_delivery(&self) -> (due: Option<Delivery>)
        ensures
            self@.pending.len() == 0 <==> due is None,
            due matches Some(d) ==> d.target == self@.pending[0] && d.payload@ == self@.payload,
    {
        if self.next < self.targets.len() {
            Some(Delivery { target: self.targets[self.next], payload: self.payload.clone() })
        } else {
            None
        }
    }

    /// Records how the send that was due went, and moves on to the next
    /// target. A failed send is remembered, not retried, and stops nothing.
    /// With no send due, nothing changes.
    pub fn record(&mut self, delivered: bool)
        ensures
            final(self)@ == recorded(old(self)@, delivered),
    {
        if self.next < self.targets.len() {
            if !delivered {
                self.failed.push(self.targets[self.next]);
            }
            self.next = self.next + 1;
            assert(self.targets@.skip(self.next as int) =~= old(self)@.pending.skip(1));
        }
    }

    /// Whether every target has been attempted.
    pub fn is_done(&self) -> (done: bool)
        ensures
            done <==> self@.pending.len() == 0,
    {
        self.next >= self.targets.len()
    }

    /// The targets whose send failed so far, in the order they were attempted.
    pub fn failed(&self) -> (failed: Vec<Handle>)
        ensures
            failed@ == self@.failed,
    {
        self.failed.clone()
    }
}

/// The broadcast `b` after the outcomes of its next deliveries, `outcomes`,
/// have been recorded in order.
pub open spec fn run(b: BroadcastView, outcomes: Seq<bool>) -> BroadcastView
    decreases outcomes.len(),
{
    if outcomes.len() == 0 {
        b
    } else {
        recorded(run(b, outcomes.drop_last()), outcomes.last())
    }
}

/// The targets that were due, one after the other, while `outcomes` were
/// recorded on `b`: the sends that the driver was asked for.
pub open spec fn attempted(b: BroadcastView, outcomes: Seq<bool>) -> Seq<Handle>
    decreases outcomes.len(),
{
    if outcomes.len() == 0 {
        Seq::empty()
    } else {
        let earlier = outcomes.drop_last();
        let due = run(b, earlier).pending;
        if due.len() == 0 {
            attempted(b, earlier)
        } else {
            attempted(b, earlier).push(due[0])
        }
    }
}

/// Those of the first `outcomes.len()` handles of `targets` whose outcome
/// was a failure, in order.
pub open spec fn failures(targets: Seq<Handle>, outcomes: Seq<bool>) -> Seq<Handle>
    recommends
        outcomes.len() <= targets.len(),
    decreases outcomes.len(),
{
    if outcomes.len() == 0 {
        Seq::empty()
    } else if outcomes.last() {
        failures(targets, outcomes.drop_last())
    } else {
        failures(targets, outcomes.drop_last()).push(targets[outcomes.len() - 1])
    }
}

/// However the sends go, the targets are attempted one by one in their
/// order, each with the broadcast's payload; a failure is remembered and
/// changes nothing for the targets after it.
pub proof fn lemma_failures_stop_nothing(b: BroadcastView, outcomes: Seq<bool>)
    requires
        outcomes.len() <= b.pending.len(),
    ensures
        attempted(b, outcomes) == b.pending.take(outcomes.len() as int),
        run(b, outcomes).pending == b.pending.skip(outcomes.len() as int),
        run(b, outcomes).payload == b.payload,
        run(b, outcomes).failed == b.failed + failures(b.pending, outcomes),
    decreases outcomes.len(),
{
    let n = outcomes.len() as int;
    if n == 0 {
        assert(b.pending.take(0) =~= Seq::<Handle>::empty());
        assert(b.pending.skip(0) =~= b.pending);
        assert(b.failed + Seq::<Handle>::empty() =~= b.failed);
    } else {
        let earlier = outcomes.drop_last();
        lemma_failures_stop_nothing(b, earlier);
        let mid = run(b, earlier);
        assert(mid.pending[0] == b.pending[n - 1]);
        assert(b.pending.take(n - 1).push(b.pending[n - 1]) =~= b.pending.take(n));
        assert(b.pending.skip(n - 1).skip(1) =~= b.pending.skip(n));
        assert((b.failed + failures(b.pending, earlier)).push(b.pending[n - 1]) =~= b.failed
            + failures(b.pending, earlier).push(b.pending[n - 1]));
    }
}

/// Once every target has had its outcome recorded, all of them have been
/// attempted and none is left, whichever sends failed.
pub proof fn lemma_every_target_attempted(b: BroadcastView, outcomes: Seq<bool>)
    requires
        outcomes.len() == b.pending.len(),
    ensures
        attempted(b, outcomes) == b.pending,
        run(b, outcomes).pending.len() == 0,
{
    lemma_failures_stop_nothing(b, outcomes);
    assert(b.pending.take(b.pending.len() as int) =~= b.pending);
}

} // verus!
