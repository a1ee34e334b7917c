use pushevent::channel::{EnqueueError, EventQueue, Fetched};
use pushevent::SerializableEvent;

struct Greeting {
    name: &'static str,
}

impl SerializableEvent for Greeting {
    fn serialize(&self) -> String {
        format!("hello {}", self.name)
    }
}

#[test]
fn publish_enqueues_the_serialized_value() {
    let mut q = EventQueue::unbounded();
    assert!(q.publish("/greetings", Greeting { name: "ann" }).is_ok());
    assert!(q.publish("/greetings", Greeting { name: "bob" }).is_ok());
    assert_eq!(q.len(), 2);
    match q.fetch() {
        Fetched::Event(e) => {
            assert_eq!(e.get_res(), "/greetings");
            assert_eq!(e.build(), "hello ann");
        }
        _ => panic!("an event was waiting"),
    }
    match q.fetch() {
        Fetched::Event(e) => assert_eq!(e.build(), "hello bob"),
        _ => panic!("an event was waiting"),
    }
}

#[test]
fn publish_to_a_closed_queue_fails_as_closed() {
    let mut q = EventQueue::unbounded();
    q.close();
    match q.publish("/greetings", Greeting { name: "ann" }) {
        Err(EnqueueError::Closed(e)) => {
            assert_eq!(e.get_res(), "/greetings");
            assert_eq!(e.build(), "hello ann");
        }
        _ => panic!("the queue was closed"),
    }
    assert!(q.is_empty());
}

#[test]
fn publish_to_a_full_queue_fails_as_full() {
    let mut q = EventQueue::bounded(1);
    assert!(q.publish("/greetings", Greeting { name: "ann" }).is_ok());
    match q.publish("/greetings", Greeting { name: "bob" }) {
        Err(EnqueueError::Full(e)) => assert_eq!(e.build(), "hello bob"),
        _ => panic!("the queue was full"),
    }
    assert_eq!(q.len(), 1);
}
