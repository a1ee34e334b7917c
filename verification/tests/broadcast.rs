use pushevent::broadcast::Broadcast;
use pushevent::server::Handle;

fn handles(tokens: &[usize]) -> Vec<Handle> {
    tokens.iter().map(|t| Handle::new(*t)).collect()
}

fn drive(b: &mut Broadcast, outcomes: &[bool]) -> Vec<(usize, String)> {
    let mut seen = Vec::new();
    for ok in outcomes {
        if let Some(d) = b.next_delivery() {
            seen.push((d.target.token(), d.payload));
        }
        b.record(*ok);
    }
    seen
}

#[test]
fn broadcast_without_targets_is_done() {
    let mut b = Broadcast::new(Vec::new(), String::from("x"));
    assert!(b.is_done());
    assert!(b.next_delivery().is_none());
    b.record(false);
    assert!(b.is_done());
    assert_eq!(b.failed(), handles(&[]));
}

#[test]
fn next_delivery_does_not_advance() {
    let b = Broadcast::new(handles(&[1, 2]), String::from("x"));
    assert_eq!(b.next_delivery().unwrap().target, Handle::new(1));
    assert_eq!(b.next_delivery().unwrap().target, Handle::new(1));
    assert!(!b.is_done());
}

#[test]
fn every_target_gets_the_payload_in_order() {
    let mut b = Broadcast::new(handles(&[5, 6, 7]), String::from("hello"));
    let seen = drive(&mut b, &[true, true, true]);
    assert_eq!(
        seen,
        vec![
            (5, String::from("hello")),
            (6, String::from("hello")),
            (7, String::from("hello")),
        ]
    );
    assert!(b.is_done());
    assert_eq!(b.failed(), handles(&[]));
}

#[test]
fn failed_send_does_not_stop_the_others() {
    let mut b = Broadcast::new(handles(&[1, 2, 3]), String::from("p"));
    let seen = drive(&mut b, &[false, true, false]);
    assert_eq!(
        seen,
        vec![(1, String::from("p")), (2, String::from("p")), (3, String::from("p"))]
    );
    assert!(b.is_done());
    assert_eq!(b.failed(), handles(&[1, 3]));
}

#[test]
fn all_sends_failing_still_attempts_all() {
    let mut b = Broadcast::new(handles(&[1, 2]), String::from("p"));
    let seen = drive(&mut b, &[false, false]);
    assert_eq!(seen.len(), 2);
    assert_eq!(b.failed(), handles(&[1, 2]));
    assert!(b.is_done());
}

#[test]
fn record_after_the_last_target_changes_nothing() {
    let mut b = Broadcast::new(handles(&[1]), String::from("p"));
    let seen = drive(&mut b, &[true, false, false]);
    assert_eq!(seen, vec![(1, String::from("p"))]);
    assert_eq!(b.failed(), handles(&[]));
    assert!(b.is_done());
}
