use pushevent::server::{Handle, ServerInner};

fn handles(tokens: &[usize]) -> Vec<Handle> {
    tokens.iter().map(|t| Handle::new(*t)).collect()
}

#[test]
fn new_registry_has_no_targets() {
    let inner = ServerInner::new();
    assert_eq!(inner.broadcast_targets("/hello"), handles(&[]));
    assert_eq!(inner.broadcast_targets(""), handles(&[]));
}

#[test]
fn default_registry_is_empty() {
    let inner = ServerInner::default();
    assert_eq!(inner.broadcast_targets("/hello"), handles(&[]));
}

#[test]
fn handle_keeps_its_token() {
    let h = Handle::new(42);
    assert_eq!(h.token(), 42);
    assert_eq!(h, Handle { token: 42 });
    assert_ne!(h, Handle::new(43));
}

#[test]
fn add_client_binds_under_its_resource_only() {
    let mut inner = ServerInner::new();
    inner.add_client("/hello", &Handle::new(1));
    assert_eq!(inner.broadcast_targets("/hello"), handles(&[1]));
    assert_eq!(inner.broadcast_targets("/other"), handles(&[]));
}

#[test]
fn add_client_appends_in_order() {
    let mut inner = ServerInner::new();
    inner.add_client("/hello", &Handle::new(3));
    inner.add_client("/hello", &Handle::new(1));
    inner.add_client("/hello", &Handle::new(2));
    assert_eq!(inner.broadcast_targets("/hello"), handles(&[3, 1, 2]));
}

#[test]
fn add_client_never_overwrites_a_bucket() {
    let mut inner = ServerInner::new();
    inner.add_client("/a", &Handle::new(1));
    inner.add_client("/b", &Handle::new(2));
    inner.add_client("/a", &Handle::new(3));
    assert_eq!(inner.broadcast_targets("/a"), handles(&[1, 3]));
    assert_eq!(inner.broadcast_targets("/b"), handles(&[2]));
}

#[test]
fn duplicate_add_binds_twice() {
    let mut inner = ServerInner::new();
    inner.add_client("/hello", &Handle::new(1));
    inner.add_client("/hello", &Handle::new(1));
    assert_eq!(inner.broadcast_targets("/hello"), handles(&[1, 1]));
}

#[test]
fn resource_paths_are_case_sensitive() {
    let mut inner = ServerInner::new();
    inner.add_client("/Topic", &Handle::new(1));
    inner.add_client("/topic", &Handle::new(2));
    assert_eq!(inner.broadcast_targets("/Topic"), handles(&[1]));
    assert_eq!(inner.broadcast_targets("/topic"), handles(&[2]));
    assert_eq!(inner.broadcast_targets("/TOPIC"), handles(&[]));
}

#[test]
fn remove_client_keeps_the_others_in_order() {
    let mut inner = ServerInner::new();
    for t in [1, 2, 3, 4] {
        inner.add_client("/hello", &Handle::new(t));
    }
    inner.remove_client(&Handle::new(2));
    assert_eq!(inner.broadcast_targets("/hello"), handles(&[1, 3, 4]));
}

#[test]
fn remove_client_scans_every_resource() {
    let mut inner = ServerInner::new();
    inner.add_client("/a", &Handle::new(1));
    inner.add_client("/b", &Handle::new(1));
    inner.add_client("/b", &Handle::new(2));
    inner.add_client("/c", &Handle::new(3));
    inner.remove_client(&Handle::new(1));
    assert_eq!(inner.broadcast_targets("/a"), handles(&[]));
    assert_eq!(inner.broadcast_targets("/b"), handles(&[2]));
    assert_eq!(inner.broadcast_targets("/c"), handles(&[3]));
}

#[test]
fn remove_client_drops_every_duplicate() {
    let mut inner = ServerInner::new();
    inner.add_client("/a", &Handle::new(1));
    inner.add_client("/a", &Handle::new(2));
    inner.add_client("/a", &Handle::new(1));
    inner.remove_client(&Handle::new(1));
    assert_eq!(inner.broadcast_targets("/a"), handles(&[2]));
}

#[test]
fn remove_client_of_unknown_handle_changes_nothing() {
    let mut inner = ServerInner::new();
    inner.remove_client(&Handle::new(9));
    inner.add_client("/a", &Handle::new(1));
    inner.remove_client(&Handle::new(9));
    assert_eq!(inner.broadcast_targets("/a"), handles(&[1]));
}

#[test]
fn remove_client_twice_is_as_once() {
    let mut once = ServerInner::new();
    let mut twice = ServerInner::new();
    for inner in [&mut once, &mut twice] {
        inner.add_client("/a", &Handle::new(1));
        inner.add_client("/a", &Handle::new(2));
        inner.add_client("/b", &Handle::new(1));
    }
    once.remove_client(&Handle::new(1));
    twice.remove_client(&Handle::new(1));
    twice.remove_client(&Handle::new(1));
    for r in ["/a", "/b", "/c"] {
        assert_eq!(once.broadcast_targets(r), twice.broadcast_targets(r));
    }
    assert_eq!(twice.broadcast_targets("/a"), handles(&[2]));
    assert_eq!(twice.broadcast_targets("/b"), handles(&[]));
}

#[test]
fn removed_handle_can_be_bound_again() {
    let mut inner = ServerInner::new();
    inner.add_client("/a", &Handle::new(1));
    inner.remove_client(&Handle::new(1));
    assert_eq!(inner.broadcast_targets("/a"), handles(&[]));
    inner.add_client("/a", &Handle::new(1));
    assert_eq!(inner.broadcast_targets("/a"), handles(&[1]));
}

#[test]
fn targets_are_the_handles_added_and_not_removed() {
    let mut inner = ServerInner::new();
    inner.add_client("/r", &Handle::new(1));
    inner.add_client("/other", &Handle::new(10));
    inner.add_client("/r", &Handle::new(2));
    inner.remove_client(&Handle::new(10));
    inner.add_client("/other", &Handle::new(11));
    inner.add_client("/r", &Handle::new(3));
    inner.remove_client(&Handle::new(2));
    inner.add_client("/third", &Handle::new(12));
    inner.add_client("/r", &Handle::new(4));
    inner.remove_client(&Handle::new(12));
    assert_eq!(inner.broadcast_targets("/r"), handles(&[1, 3, 4]));
    assert_eq!(inner.broadcast_targets("/other"), handles(&[11]));
    assert_eq!(inner.broadcast_targets("/third"), handles(&[]));
}

#[test]
fn broadcast_targets_is_a_snapshot() {
    let mut inner = ServerInner::new();
    inner.add_client("/a", &Handle::new(1));
    let before = inner.broadcast_targets("/a");
    inner.add_client("/a", &Handle::new(2));
    inner.remove_client(&Handle::new(1));
    assert_eq!(before, handles(&[1]));
    assert_eq!(inner.broadcast_targets("/a"), handles(&[2]));
}

#[test]
fn broadcast_starts_with_the_current_targets() {
    let mut inner = ServerInner::new();
    inner.add_client("/hello", &Handle::new(1));
    inner.add_client("/hello", &Handle::new(2));
    let mut b = inner.broadcast("/hello", String::from("Hello World"));
    inner.remove_client(&Handle::new(2));
    let first = b.next_delivery().unwrap();
    assert_eq!(first.target, Handle::new(1));
    assert_eq!(first.payload, "Hello World");
    b.record(true);
    let second = b.next_delivery().unwrap();
    assert_eq!(second.target, Handle::new(2));
    assert_eq!(second.payload, "Hello World");
    b.record(true);
    assert!(b.next_delivery().is_none());
}

#[test]
fn broadcast_to_unknown_resource_has_no_target() {
    let inner = ServerInner::new();
    let b = inner.broadcast("/hello", String::from("Hello World"));
    assert!(b.is_done());
    assert!(b.next_delivery().is_none());
    assert_eq!(b.failed(), handles(&[]));
}
