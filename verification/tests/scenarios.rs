//! End-to-end scenarios: handlers that write down what they are called with.
use event_bus::Event;
use event_bus::EventBus;
use event_bus::Subscriber;
use std::cell::RefCell;
use std::rc::Rc;

type Log = Rc<RefCell<Vec<String>>>;

fn new_log() -> Log {
    Rc::new(RefCell::new(Vec::new()))
}

fn entries(log: &Log) -> Vec<String> {
    log.borrow().clone()
}

/// Writes down its label and the name of each event.
struct Alpha {
    label: &'static str,
    log: Log,
}

impl Subscriber for Alpha {
    fn call(&mut self, event: &Event) -> std::io::Result<()> {
        self.log.borrow_mut().push(format!("{}:{}", self.label, event.name()));
        Ok(())
    }
}

/// As `Alpha`, but another type.
struct Beta {
    label: &'static str,
    log: Log,
}

impl Subscriber for Beta {
    fn call(&mut self, event: &Event) -> std::io::Result<()> {
        self.log.borrow_mut().push(format!("{}:{}", self.label, event.name()));
        Ok(())
    }
}

/// As `Alpha`, but a third type.
struct Gamma {
    label: &'static str,
    log: Log,
}

impl Subscriber for Gamma {
    fn call(&mut self, event: &Event) -> std::io::Result<()> {
        self.log.borrow_mut().push(format!("{}:{}", self.label, event.name()));
        Ok(())
    }
}

/// Writes down the `i32` payload of each event.
struct ReadsNumber {
    seen: Rc<RefCell<Vec<i32>>>,
}

impl Subscriber for ReadsNumber {
    fn call(&mut self, event: &Event) -> std::io::Result<()> {
        let number = event.data::<i32>();
        self.seen.borrow_mut().push(*number);
        Ok(())
    }
}

/// Writes down whether the payload of each event could be read as an `i32`.
struct AsksForNumber {
    found: Rc<RefCell<Vec<bool>>>,
}

impl Subscriber for AsksForNumber {
    fn call(&mut self, event: &Event) -> std::io::Result<()> {
        self.found.borrow_mut().push(event.try_data::<i32>().is_some());
        Ok(())
    }
}

#[test]
fn single_handler_single_post() {
    let seen = Rc::new(RefCell::new(Vec::new()));
    let mut bus = EventBus::new();
    assert!(bus.subscribe("tick", ReadsNumber { seen: seen.clone() }).is_ok());
    assert!(bus.post(Event::new("tick", 32i32)).is_ok());
    assert_eq!(*seen.borrow(), vec![32]);
}

#[test]
fn order_preservation() {
    let log = new_log();
    let mut bus = EventBus::new();
    bus.subscribe("evt", Alpha { label: "A", log: log.clone() }).unwrap();
    bus.subscribe("evt", Beta { label: "B", log: log.clone() }).unwrap();
    bus.subscribe("evt", Gamma { label: "C", log: log.clone() }).unwrap();
    assert!(bus.post(Event::new("evt", "x")).is_ok());
    assert_eq!(entries(&log), vec!["A:evt", "B:evt", "C:evt"]);
}

#[test]
fn name_isolation() {
    let log = new_log();
    let mut bus = EventBus::new();
    bus.subscribe("a", Alpha { label: "H1", log: log.clone() }).unwrap();
    bus.subscribe("b", Beta { label: "H2", log: log.clone() }).unwrap();
    assert!(bus.post(Event::new("a", 1i32)).is_ok());
    assert_eq!(entries(&log), vec!["H1:a"]);
}

#[test]
fn unsubscribe_of_absent_handler_type() {
    let log = new_log();
    let mut bus = EventBus::new();
    assert!(bus.unsubscribe("nope", Alpha { label: "h", log: log.clone() }).is_ok());
    assert!(bus.post(Event::new("nope", 0i32)).is_ok());
    assert!(entries(&log).is_empty());
}

#[test]
fn bulk_subscribe_and_post() {
    let log = new_log();
    let mut bus = EventBus::new();
    let handlers = vec![
        Alpha { label: "h1", log: log.clone() },
        Alpha { label: "h2", log: log.clone() },
        Alpha { label: "h3", log: log.clone() },
    ];
    assert!(bus.subscribe_all("evt", handlers).is_ok());
    assert!(bus.post(Event::new("evt", 7i32)).is_ok());
    assert_eq!(entries(&log), vec!["h1:evt", "h2:evt", "h3:evt"]);
}

#[test]
fn type_mismatch_retrieval() {
    let event = Event::new("x", String::from("hello"));
    assert!(event.try_data::<i32>().is_none());
    assert_eq!(event.try_data::<String>().map(|text| text.as_str()), Some("hello"));
    assert_eq!(event.data::<String>(), "hello");
}

#[test]
fn type_mismatch_retrieval_inside_a_handler() {
    let found = Rc::new(RefCell::new(Vec::new()));
    let mut bus = EventBus::new();
    bus.subscribe("x", AsksForNumber { found: found.clone() }).unwrap();
    assert!(bus.post(Event::new("x", String::from("hello"))).is_ok());
    assert!(bus.post(Event::new("x", 5i32)).is_ok());
    assert_eq!(*found.borrow(), vec![false, true]);
}

#[test]
fn subscribed_handler_is_called_once_per_post() {
    let log = new_log();
    let mut bus = EventBus::new();
    bus.subscribe("n", Alpha { label: "h", log: log.clone() }).unwrap();
    bus.post(Event::new("n", ())).unwrap();
    assert_eq!(entries(&log), vec!["h:n"]);
    bus.post(Event::new("n", ())).unwrap();
    assert_eq!(entries(&log), vec!["h:n", "h:n"]);
}

#[test]
fn post_under_a_name_never_subscribed() {
    let log = new_log();
    let mut bus = EventBus::new();
    bus.subscribe("known", Alpha { label: "h", log: log.clone() }).unwrap();
    assert!(bus.post(Event::new("unknown", 1u8)).is_ok());
    assert!(entries(&log).is_empty());
}

#[test]
fn post_to_a_fresh_dispatcher() {
    let mut bus = EventBus::new();
    assert!(bus.post(Event::new("anything", 1u8)).is_ok());
    assert!(bus.post(Event::new("", 1u8)).is_ok());
}

#[test]
fn unsubscribe_of_a_type_that_is_not_registered() {
    let log = new_log();
    let mut bus = EventBus::new();
    bus.subscribe("n", Alpha { label: "kept", log: log.clone() }).unwrap();
    assert!(bus.unsubscribe("n", Beta { label: "probe", log: log.clone() }).is_ok());
    assert!(bus.unsubscribe("other", Alpha { label: "probe", log: log.clone() }).is_ok());
    bus.post(Event::new("n", ())).unwrap();
    assert_eq!(entries(&log), vec!["kept:n"]);
}

#[test]
fn subscribe_all_is_subscribe_for_each() {
    let together = new_log();
    let mut one = EventBus::new();
    one.subscribe("n", Beta { label: "b", log: together.clone() }).unwrap();
    one.subscribe_all(
        "n",
        vec![
            Alpha { label: "h1", log: together.clone() },
            Alpha { label: "h2", log: together.clone() },
        ],
    )
    .unwrap();

    let apart = new_log();
    let mut other = EventBus::new();
    other.subscribe("n", Beta { label: "b", log: apart.clone() }).unwrap();
    other.subscribe("n", Alpha { label: "h1", log: apart.clone() }).unwrap();
    other.subscribe("n", Alpha { label: "h2", log: apart.clone() }).unwrap();

    one.post(Event::new("n", ())).unwrap();
    other.post(Event::new("n", ())).unwrap();
    assert_eq!(entries(&together), vec!["b:n", "h1:n", "h2:n"]);
    assert_eq!(entries(&together), entries(&apart));

    // The same removals leave the same handlers.
    one.unsubscribe("n", Alpha { label: "probe", log: new_log() }).unwrap();
    other.unsubscribe("n", Alpha { label: "probe", log: new_log() }).unwrap();
    together.borrow_mut().clear();
    apart.borrow_mut().clear();
    one.post(Event::new("n", ())).unwrap();
    other.post(Event::new("n", ())).unwrap();
    assert_eq!(entries(&together), vec!["b:n", "h2:n"]);
    assert_eq!(entries(&together), entries(&apart));
}

#[test]
fn subscribe_all_of_nothing() {
    let log = new_log();
    let mut bus = EventBus::new();
    bus.subscribe("n", Alpha { label: "h", log: log.clone() }).unwrap();
    assert!(bus.subscribe_all("n", Vec::<Beta>::new()).is_ok());
    assert!(bus.subscribe_all("m", Vec::<Beta>::new()).is_ok());
    bus.post(Event::new("n", ())).unwrap();
    bus.post(Event::new("m", ())).unwrap();
    assert_eq!(entries(&log), vec!["h:n"]);
}

#[test]
fn same_type_twice_then_unsubscribed_twice() {
    let log = new_log();
    let mut bus = EventBus::new();
    bus.subscribe("n", Alpha { label: "first", log: log.clone() }).unwrap();
    bus.subscribe("n", Alpha { label: "second", log: log.clone() }).unwrap();
    bus.post(Event::new("n", ())).unwrap();
    assert_eq!(entries(&log), vec!["first:n", "second:n"]);

    log.borrow_mut().clear();
    bus.unsubscribe("n", Alpha { label: "probe", log: log.clone() }).unwrap();
    bus.post(Event::new("n", ())).unwrap();
    assert_eq!(entries(&log), vec!["second:n"]);

    log.borrow_mut().clear();
    bus.unsubscribe("n", Alpha { label: "probe", log: log.clone() }).unwrap();
    bus.post(Event::new("n", ())).unwrap();
    assert!(entries(&log).is_empty());

    // A third removal finds nothing and changes nothing.
    bus.unsubscribe("n", Alpha { label: "probe", log: log.clone() }).unwrap();
    bus.post(Event::new("n", ())).unwrap();
    assert!(entries(&log).is_empty());
}

#[test]
fn unsubscribe_takes_the_first_of_its_type_and_no_other() {
    let log = new_log();
    let mut bus = EventBus::new();
    bus.subscribe("n", Beta { label: "b1", log: log.clone() }).unwrap();
    bus.subscribe("n", Alpha { label: "a1", log: log.clone() }).unwrap();
    bus.subscribe("n", Gamma { label: "c1", log: log.clone() }).unwrap();
    bus.subscribe("n", Alpha { label: "a2", log: log.clone() }).unwrap();
    bus.subscribe("m", Alpha { label: "a3", log: log.clone() }).unwrap();
    bus.unsubscribe("n", Alpha { label: "probe", log: log.clone() }).unwrap();
    bus.post(Event::new("n", ())).unwrap();
    bus.post(Event::new("m", ())).unwrap();
    assert_eq!(entries(&log), vec!["b1:n", "c1:n", "a2:n", "a3:m"]);
}

#[test]
fn unsubscribe_all_makes_one_removal_for_each() {
    let log = new_log();
    let mut bus = EventBus::new();
    bus.subscribe_all(
        "n",
        vec![
            Alpha { label: "a1", log: log.clone() },
            Alpha { label: "a2", log: log.clone() },
            Alpha { label: "a3", log: log.clone() },
        ],
    )
    .unwrap();
    bus.subscribe("n", Beta { label: "b1", log: log.clone() }).unwrap();
    let probes = vec![
        Alpha { label: "p1", log: log.clone() },
        Alpha { label: "p2", log: log.clone() },
    ];
    assert!(bus.unsubscribe_all("n", probes).is_ok());
    bus.post(Event::new("n", ())).unwrap();
    assert_eq!(entries(&log), vec!["a3:n", "b1:n"]);

    // More removals than handlers: the rest find nothing.
    log.borrow_mut().clear();
    let probes = vec![
        Alpha { label: "p1", log: log.clone() },
        Alpha { label: "p2", log: log.clone() },
    ];
    assert!(bus.unsubscribe_all("n", probes).is_ok());
    bus.post(Event::new("n", ())).unwrap();
    assert_eq!(entries(&log), vec!["b1:n"]);
}

#[test]
fn empty_name_is_a_name_of_its_own() {
    let log = new_log();
    let mut bus = EventBus::new();
    bus.subscribe("", Alpha { label: "empty", log: log.clone() }).unwrap();
    bus.subscribe(" ", Alpha { label: "blank", log: log.clone() }).unwrap();
    bus.post(Event::new("", ())).unwrap();
    assert_eq!(entries(&log), vec!["empty:"]);
    bus.post(Event::new(" ", ())).unwrap();
    assert_eq!(entries(&log), vec!["empty:", "blank: "]);
}

#[test]
fn names_are_compared_exactly() {
    let log = new_log();
    let mut bus = EventBus::new();
    bus.subscribe("Tick", Alpha { label: "h", log: log.clone() }).unwrap();
    bus.post(Event::new("tick", ())).unwrap();
    bus.post(Event::new("Tick ", ())).unwrap();
    bus.post(Event::new("Tic", ())).unwrap();
    assert!(entries(&log).is_empty());
    bus.post(Event::new("Tick", ())).unwrap();
    assert_eq!(entries(&log), vec!["h:Tick"]);
}

#[test]
fn subscribing_after_a_post_counts_for_later_posts_only() {
    let log = new_log();
    let mut bus = EventBus::new();
    bus.post(Event::new("n", ())).unwrap();
    bus.subscribe("n", Alpha { label: "late", log: log.clone() }).unwrap();
    assert!(entries(&log).is_empty());
    bus.post(Event::new("n", ())).unwrap();
    assert_eq!(entries(&log), vec!["late:n"]);
}

#[test]
fn a_name_emptied_by_unsubscribe_can_be_used_again() {
    let log = new_log();
    let mut bus = EventBus::new();
    bus.subscribe("n", Alpha { label: "one", log: log.clone() }).unwrap();
    bus.unsubscribe("n", Alpha { label: "probe", log: log.clone() }).unwrap();
    assert!(bus.post(Event::new("n", ())).is_ok());
    assert!(entries(&log).is_empty());
    bus.subscribe("n", Beta { label: "two", log: log.clone() }).unwrap();
    bus.post(Event::new("n", ())).unwrap();
    assert_eq!(entries(&log), vec!["two:n"]);
}
