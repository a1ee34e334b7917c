use pushevent::client::{Client, ConnState};
use pushevent::server::{Handle, ServerInner};

fn handles(tokens: &[usize]) -> Vec<Handle> {
    tokens.iter().map(|t| Handle::new(*t)).collect()
}

#[test]
fn new_client_is_connecting_and_unbound() {
    let client = Client::new(Handle::new(1));
    assert_eq!(client.state(), ConnState::Connecting);
    assert_eq!(client.resource(), None);
    assert_eq!(client.sender(), Handle::new(1));
}

#[test]
fn request_opens_and_binds_once() {
    let mut server = ServerInner::new();
    let mut client = Client::new(Handle::new(1));
    client.on_request(&mut server, "/hello");
    assert_eq!(client.state(), ConnState::Open);
    assert_eq!(client.resource(), Some(String::from("/hello")));
    assert_eq!(server.broadcast_targets("/hello"), handles(&[1]));
    client.on_open();
    assert_eq!(client.state(), ConnState::Open);
    assert_eq!(server.broadcast_targets("/hello"), handles(&[1]));
}

#[test]
fn second_request_does_not_bind_again() {
    let mut server = ServerInner::new();
    let mut client = Client::new(Handle::new(1));
    client.on_request(&mut server, "/hello");
    client.on_request(&mut server, "/hello");
    client.on_request(&mut server, "/other");
    assert_eq!(client.resource(), Some(String::from("/hello")));
    assert_eq!(server.broadcast_targets("/hello"), handles(&[1]));
    assert_eq!(server.broadcast_targets("/other"), handles(&[]));
}

#[test]
fn close_unbinds_and_is_final() {
    let mut server = ServerInner::new();
    let mut a = Client::new(Handle::new(1));
    let mut b = Client::new(Handle::new(2));
    a.on_request(&mut server, "/hello");
    b.on_request(&mut server, "/hello");
    a.on_close(&mut server);
    assert_eq!(a.state(), ConnState::Closed);
    assert_eq!(server.broadcast_targets("/hello"), handles(&[2]));
    a.on_request(&mut server, "/hello");
    assert_eq!(a.state(), ConnState::Closed);
    assert_eq!(server.broadcast_targets("/hello"), handles(&[2]));
}

#[test]
fn close_before_open_is_harmless() {
    let mut server = ServerInner::new();
    let mut other = Client::new(Handle::new(2));
    other.on_request(&mut server, "/hello");
    let mut client = Client::new(Handle::new(1));
    client.on_close(&mut server);
    assert_eq!(client.state(), ConnState::Closed);
    assert_eq!(client.resource(), None);
    assert_eq!(server.broadcast_targets("/hello"), handles(&[2]));
}

#[test]
fn client_close_twice_is_as_once() {
    let mut server = ServerInner::new();
    let mut a = Client::new(Handle::new(1));
    let mut b = Client::new(Handle::new(2));
    a.on_request(&mut server, "/hello");
    b.on_request(&mut server, "/hello");
    a.on_close(&mut server);
    a.on_close(&mut server);
    assert_eq!(a.state(), ConnState::Closed);
    assert_eq!(server.broadcast_targets("/hello"), handles(&[2]));
}

#[test]
fn messages_from_subscribers_change_nothing() {
    let mut server = ServerInner::new();
    let mut client = Client::new(Handle::new(1));
    client.on_message("early");
    assert_eq!(client.state(), ConnState::Connecting);
    client.on_request(&mut server, "/hello");
    client.on_message("ping");
    assert_eq!(client.state(), ConnState::Open);
    assert_eq!(client.resource(), Some(String::from("/hello")));
    assert_eq!(server.broadcast_targets("/hello"), handles(&[1]));
}
