//! Events: the name and the payload.
use event_bus::Event;

#[derive(Debug, PartialEq)]
struct Reading {
    sensor: u8,
    value: i64,
}

#[test]
fn name_is_kept() {
    assert_eq!(Event::new("tick", 1i32).name(), "tick");
    assert_eq!(Event::new("", 1i32).name(), "");
    assert_eq!(Event::new("Große Änderung", 1i32).name(), "Große Änderung");
}

#[test]
fn payload_comes_back_as_its_own_type() {
    assert_eq!(Event::new("n", 32i32).data::<i32>(), &32);
    assert_eq!(Event::new("n", -7i64).data::<i64>(), &-7);
    assert_eq!(Event::new("n", true).data::<bool>(), &true);
    assert_eq!(Event::new("n", String::from("hello")).data::<String>(), "hello");
    assert_eq!(Event::new("n", "hello").data::<&str>(), &"hello");
    assert_eq!(Event::new("n", vec![1u8, 2, 3]).data::<Vec<u8>>(), &vec![1u8, 2, 3]);
    assert_eq!(Event::new("n", ()).data::<()>(), &());
    let reading = Event::new("n", Reading { sensor: 3, value: -40 });
    assert_eq!(reading.data::<Reading>(), &Reading { sensor: 3, value: -40 });
}

#[test]
fn payload_is_found_as_its_own_type() {
    assert_eq!(Event::new("n", 32i32).try_data::<i32>(), Some(&32));
    assert_eq!(Event::new("n", String::from("hello")).try_data::<String>(), Some(&String::from("hello")));
    assert_eq!(Event::new("n", "hello").try_data::<&str>(), Some(&"hello"));
    let reading = Event::new("n", Reading { sensor: 3, value: -40 });
    assert_eq!(reading.try_data::<Reading>(), Some(&Reading { sensor: 3, value: -40 }));
}

#[test]
fn payload_is_not_found_as_another_type() {
    let number = Event::new("n", 32i32);
    assert!(number.try_data::<u32>().is_none());
    assert!(number.try_data::<i64>().is_none());
    assert!(number.try_data::<String>().is_none());
    assert!(number.try_data::<&i32>().is_none());
    assert!(number.try_data::<Box<i32>>().is_none());
    let text = Event::new("n", "hello");
    assert!(text.try_data::<String>().is_none());
    let owned = Event::new("n", String::from("hello"));
    assert!(owned.try_data::<&str>().is_none());
    let boxed = Event::new("n", Box::new(5u8));
    assert!(boxed.try_data::<u8>().is_none());
    assert_eq!(boxed.try_data::<Box<u8>>(), Some(&Box::new(5u8)));
    let reading = Event::new("n", Reading { sensor: 3, value: -40 });
    assert!(reading.try_data::<(u8, i64)>().is_none());
}

#[test]
fn payload_can_be_read_more_than_once() {
    let event = Event::new("n", Reading { sensor: 1, value: 2 });
    let first = event.data::<Reading>();
    let second = event.data::<Reading>();
    assert_eq!(first, second);
    assert_eq!(event.try_data::<Reading>(), Some(first));
    assert_eq!(event.name(), "n");
}

#[test]
fn payload_of_an_event_inside_an_event() {
    let inner = Event::new("inner", 7u8);
    let outer = Event::new("outer", inner);
    assert!(outer.try_data::<u8>().is_none());
    let found = outer.data::<Event>();
    assert_eq!(found.name(), "inner");
    assert_eq!(found.data::<u8>(), &7);
}
