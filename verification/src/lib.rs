//! A resource-scoped publish/subscribe broadcaster core.
//!
//! Producers build an [`Event`] for a resource path and offer it to an
//! [`channel::EventQueue`]. A [`dispatcher::Dispatcher`] takes the events out
//! in the order they were accepted, looks up the subscribers bound to the
//! event's resource in a [`server::ServerInner`] registry, and asks its driver
//! to send the payload to each of them. A [`client::Client`] keeps the
//! registry in step with the life of one connection.
//!
//! Nothing here performs I/O: sockets, threads and locks belong to the
//! program that drives these types. What the types promise is stated in
//! their contracts; what holds across them is proved in [`history`],
//! [`broadcast`], [`client`] and [`system`].

pub mod broadcast;
pub mod channel;
pub mod client;
pub mod dispatcher;
pub mod event;
pub mod history;
pub mod server;
pub mod system;

pub use event::{Event, SerializableEvent};
