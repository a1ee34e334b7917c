use pushevent::event::{Event, SerializableEvent};

struct Message;

impl SerializableEvent for Message {
    fn serialize(&self) -> String {
        String::from("Hello world")
    }
}

struct Counter {
    value: u32,
}

impl SerializableEvent for Counter {
    fn serialize(&self) -> String {
        format!("{{\"value\":{}}}", self.value)
    }
}

#[test]
fn new_event_serializes_its_inner_value() {
    let new_event = Event::new("/events/message", Message);
    assert_eq!(new_event.get_res(), String::from("/events/message"));
    assert_eq!(new_event.build(), String::from("Hello world"));
}

#[test]
fn new_event_keeps_payload_bytes_as_they_are() {
    let ev = Event::new("/counter", Counter { value: 7 });
    assert_eq!(ev.get_res(), "/counter");
    assert_eq!(ev.build(), "{\"value\":7}");
}

#[test]
fn build_can_be_called_repeatedly() {
    let ev = Event::new("/events/message", Message);
    assert_eq!(ev.build(), ev.build());
    assert_eq!(ev.get_res(), ev.get_res());
}

#[test]
fn from_parts_keeps_both_parts() {
    let ev = Event::from_parts(String::from("/topic"), String::from("hello"));
    assert_eq!(ev.get_res(), "/topic");
    assert_eq!(ev.build(), "hello");
}

#[test]
fn from_parts_accepts_empty_strings() {
    let ev = Event::from_parts(String::new(), String::new());
    assert_eq!(ev.get_res(), "");
    assert_eq!(ev.build(), "");
}
