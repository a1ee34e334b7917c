//! Events: a resource path bound to an already serialized payload.

use vstd::prelude::*;

verus! {

/// A value that can be serialized to the string its subscribers receive.
///
/// The broadcaster never inspects the string; it only carries it.
pub trait SerializableEvent: Sync + Send + 'static {
    /// Returns the serialized value.
    fn serialize(&self) -> String;
}

/// What an [`Event`] means: the resource it targets and the payload it carries.
pub ghost struct EventView {
    pub resource: Seq<char>,
    pub payload: Seq<char>,
}

/// A payload addressed to the subscribers of one resource path.
///
/// An event is immutable once built.
#[derive(Debug)]
pub struct Event {
    res: String,
    inner: String,
}

impl View for Event {
    type V = EventView;

    closed spec fn view(&self) -> EventView {
        EventView { resource: self.res@, payload: self.inner@ }
    }
}

impl Event {
    /// Builds the event that carries `payload`, already serialized, to the
    /// subscribers of `res`.
    pub fn from_parts(res: String, payload: String) -> (ev: Event)
        ensures
            ev@.resource == res@,
            ev@.payload == payload@,
    {
        Event { res, inner: payload }
    }

    /// Builds an event for the subscribers of `res` out of a serializable
    /// value. The payload is whatever `inner.serialize()` returns, taken once.
    pub fn new<T: SerializableEvent>(res: &str, inner: T) -> (ev: Event)
        ensures
            ev@.resource == res@,
    {
        let payload = inner.serialize();
        Event::from_parts(res.to_owned(), payload)
    }

    /// Returns the resource path the event targets.
    pub fn get_res(&self) -> (res: String)
        ensures
            res@ == self@.resource,
    {
        self.res.clone()
    }

    /// Returns the serialized payload.
    pub fn build(&self) -> (payload: String)
        ensures
            payload@ == self@.payload,
    {
        self.inner.clone()
    }
}

} // verus!
