//! The lifecycle of one connection, as the registry sees it.
//!
//! A connection starts out connecting. When the transport surfaces the
//! resource it requests, the connection opens and its handle is bound to that
//! resource, once. When the transport reports the end of the connection, for
//! whatever reason, the handle is unbound from everything and the connection
//! is closed for good. What a subscriber sends is never relayed.

use crate::history::{apply, handle_of, RegistryOp};
use crate::server::{added, removed, targets, without, Handle, ServerInner};
use vstd::prelude::*;

verus! {

/// Where a connection is in its life.
#[derive(Clone, Copy, Debug, PartialEq, Eq, Structural)]
pub enum ConnState {
    /// The handshake has not surfaced a resource path yet.
    Connecting,
    /// The connection is bound to its resource and receives broadcasts.
    Open,
    /// The connection is over. This state is final.
    Closed,
}

/// What a [`Client`] means.
pub ghost struct ClientView {
    /// The identity of the connection.
    pub handle: Handle,
    /// The resource the connection asked for, once it has.
    pub resource: Option<Seq<char>>,
    /// Where the connection is in its life.
    pub state: ConnState,
}

/// What the transport tells a connection's handler.
pub ghost enum Callback {
    /// The peer requests this resource path.
    Request(Seq<char>),
    /// The handshake is complete.
    Open,
    /// The peer sent this message.
    Message(Seq<char>),
    /// The connection is over.
    Close,
}

/// The connection `c` and the registry `reg` after the handler of `c` has
/// been told `cb`.
pub open spec fn handled(
    c: ClientView,
    reg: Map<Seq<char>, Seq<Handle>>,
    cb: Callback,
) -> (ClientView, Map<Seq<char>, Seq<Handle>>) {
    match cb {
        Callback::Request(r) => if c.state == ConnState::Connecting {
            (
                ClientView { handle: c.handle, resource: Some(r), state: ConnState::Open },
                added(reg, r, c.handle),
            )
        } else {
            (c, reg)
        },
        Callback::Open => (c, reg),
        Callback::Message(_) => (c, reg),
        Callback::Close => (ClientView { state: ConnState::Closed, ..c }, removed(reg, c.handle)),
    }
}

/// The handler of one connection: it keeps the registry in step with the
/// connection's life.
#[derive(Debug)]
pub struct Client {
    sender: Handle,
    resource: Option<String>,
    state: ConnState,
}

impl View for Client {
    type V = ClientView;

    closed spec fn view(&self) -> ClientView {
        ClientView {
            handle: self.sender,
            resource: match self.resource {
                Some(r) => Some(r@),
                None => None,
            },
            state: self.state,
        }
    }
}

impl Client {
    /// The handler of a connection that is still connecting.
    pub fn new(sender: Handle) -> (client: Client)
        ensures
            client@ == (ClientView {
                handle: sender,
                resource: None,
                state: ConnState::Connecting,
            }),
    {
        Client { sender, resource: None, state: ConnState::Connecting }
    }

    /// The peer requests `resource`: a connecting connection opens and its
    /// handle is bound to `resource` in `server`. A connection that is
    /// already open, or closed, is not bound again: nothing changes.
    pub fn on_request(&mut self, server: &mut ServerInner, resource: &str)
        ensures
            (final(self)@, final(server)@) == handled(
                old(self)@,
                old(server)@,
                Callback::Request(resource@),
            ),
    {
        if self.state == ConnState::Connecting {
            server.add_client(resource, &self.sender);
            self.resource = Some(resource.to_owned());
            self.state = ConnState::Open;
        }
    }

    /// The handshake is complete. Nothing changes: the handle was bound when
    /// the resource was requested.
    pub fn on_open(&mut self)
        ensures
            final(self)@ == old(self)@,
    {
    }

    /// The peer sent `message`. Subscribers only receive: the message is
    /// dropped, and nothing changes.
    pub fn on_message(&mut self, message: &str)
        ensures
            final(self)@ == old(self)@,
    {
    }

    /// The connection is over: its handle is unbound from every resource of
    /// `server`, whichever it was bound to, and the connection is closed.
    /// This is safe for a connection that never opened, and when repeated.
    pub fn on_close(&mut self, server: &mut ServerInner)
        ensures
            (final(self)@, final(server)@) == handled(old(self)@, old(server)@, Callback::Close),
    {
        server.remove_client(&self.sender);
        self.state = ConnState::Closed;
    }

    /// The identity of the connection.
    pub fn sender(&self) -> (sender: Handle)
        ensures
            sender == self@.handle,
    {
        self.sender
    }

    /// Where the connection is in its life.
    pub fn state(&self) -> (state: ConnState)
        ensures
            state == self@.state,
    {
        self.state
    }

    /// The resource the connection asked for, once it has.
    pub fn resource(&self) -> (resource: Option<String>)
        ensures
            match resource {
                Some(r) => self@.resource == Some(r@),
                None => self@.resource is None,
            },
    {
        self.resource.clone()
    }
}

/// How many times `h` is among `s`.
pub open spec fn occurrences(s: Seq<Handle>, h: Handle) -> nat {
    s.filter(|x: Handle| x == h).len()
}

/// The registry `reg` holds the handle of the connection `c` exactly where
/// the life of `c` says: once among the subscribers of the resource it asked
/// for while it is open, and nowhere otherwise.
pub open spec fn in_step(c: ClientView, reg: Map<Seq<char>, Seq<Handle>>) -> bool {
    forall|r: Seq<char>| #[trigger]
        occurrences(targets(reg, r), c.handle) == if c.state == ConnState::Open && c.resource
            == Some(r) {
            1nat
        } else {
            0nat
        }
}

/// Counting `h` in a sequence that ends in `x`.
proof fn lemma_occurrences_push(s: Seq<Handle>, x: Handle, h: Handle)
    ensures
        occurrences(s.push(x), h) == occurrences(s, h) + if x == h {
            1nat
        } else {
            0nat
        },
{
    reveal(Seq::filter);
    assert(s.push(x).drop_last() =~= s);
}

/// Dropping `g` from a sequence leaves no `g` and every other handle as
/// often as before.
proof fn lemma_occurrences_without(s: Seq<Handle>, g: Handle, h: Handle)
    ensures
        occurrences(without(s, g), h) == if g == h {
            0nat
        } else {
            occurrences(s, h)
        },
    decreases s.len(),
{
    reveal(Seq::filter);
    if s.len() > 0 {
        let rest = s.drop_last();
        let x = s.last();
        lemma_occurrences_without(rest, g, h);
        assert(rest.push(x) =~= s);
        lemma_occurrences_push(rest, x, h);
        if x != g {
            assert(without(s, g) == without(rest, g).push(x));
            lemma_occurrences_push(without(rest, g), x, h);
        } else {
            assert(without(s, g) == without(rest, g));
        }
    } else {
        assert(without(s, g) =~= s);
    }
}

/// A handle that is not among `s` occurs in it no times.
proof fn lemma_occurrences_absent(s: Seq<Handle>, h: Handle)
    requires
        !s.contains(h),
    ensures
        occurrences(s, h) == 0,
    decreases s.len(),
{
    reveal(Seq::filter);
    if s.len() > 0 {
        let rest = s.drop_last();
        assert forall|i: int| 0 <= i < rest.len() implies rest[i] != h by {
            assert(rest[i] == s[i]);
            assert(s.contains(s[i]));
        }
        lemma_occurrences_absent(rest, h);
        assert(s.contains(s.last()));
    }
}

/// A connection that is still connecting, and whose handle the registry
/// does not hold, is in step with the registry.
pub proof fn lemma_in_step_at_start(h: Handle, reg: Map<Seq<char>, Seq<Handle>>)
    requires
        forall|r: Seq<char>| !targets(reg, r).contains(h),
    ensures
        in_step(ClientView { handle: h, resource: None, state: ConnState::Connecting }, reg),
{
    assert forall|r: Seq<char>| #[trigger] occurrences(targets(reg, r), h) == 0 by {
        lemma_occurrences_absent(targets(reg, r), h);
    }
}

/// Whatever the transport tells the handler, and in whatever state, the
/// connection stays in step with the registry: it is bound at most once, only
/// while open, and only to the resource it asked for.
pub proof fn lemma_callback_keeps_in_step(
    c: ClientView,
    reg: Map<Seq<char>, Seq<Handle>>,
    cb: Callback,
)
    requires
        in_step(c, reg),
    ensures
        in_step(handled(c, reg, cb).0, handled(c, reg, cb).1),
{
    let (c2, reg2) = handled(c, reg, cb);
    assert forall|r: Seq<char>| #[trigger]
        occurrences(targets(reg2, r), c2.handle) == if c2.state == ConnState::Open && c2.resource
            == Some(r) {
            1nat
        } else {
            0nat
        } by {
        assert(occurrences(targets(reg, r), c.handle) == if c.state == ConnState::Open
            && c.resource == Some(r) {
            1nat
        } else {
            0nat
        });
        match cb {
            Callback::Request(q) => {
                if c.state == ConnState::Connecting {
                    crate::history::lemma_targets_added(reg, q, c.handle, r);
                    lemma_occurrences_push(targets(reg, r), c.handle, c.handle);
                }
            },
            Callback::Close => {
                crate::history::lemma_targets_removed(reg, c.handle, r);
                lemma_occurrences_without(targets(reg, r), c.handle, c.handle);
            },
            _ => {},
        }
    }
}

/// What happens to other connections does not put this one out of step.
pub proof fn lemma_others_keep_in_step(
    c: ClientView,
    reg: Map<Seq<char>, Seq<Handle>>,
    op: RegistryOp,
)
    requires
        in_step(c, reg),
        handle_of(op) != c.handle,
    ensures
        in_step(c, apply(reg, op)),
{
    let reg2 = apply(reg, op);
    assert forall|r: Seq<char>| #[trigger]
        occurrences(targets(reg2, r), c.handle) == if c.state == ConnState::Open && c.resource
            == Some(r) {
            1nat
        } else {
            0nat
        } by {
        assert(occurrences(targets(reg, r), c.handle) == if c.state == ConnState::Open
            && c.resource == Some(r) {
            1nat
        } else {
            0nat
        });
        match op {
            RegistryOp::Add { resource, handle } => {
                crate::history::lemma_targets_added(reg, resource, handle, r);
                lemma_occurrences_push(targets(reg, r), handle, c.handle);
            },
            RegistryOp::Remove { handle } => {
                crate::history::lemma_targets_removed(reg, handle, r);
                lemma_occurrences_without(targets(reg, r), handle, c.handle);
            },
        }
    }
}

} // verus!
