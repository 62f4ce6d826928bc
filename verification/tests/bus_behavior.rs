use std::sync::atomic::{AtomicUsize, Ordering};
use std::sync::{Arc, Mutex};

use basu::error::BasuError;
use basu::event::Event;
use basu::{EventBus, Handle, HandlerId};

struct Noop;

impl Handle<u32> for Noop {
    fn handle(&self, _event: &Event<u32>) -> Result<(), BasuError> {
        Ok(())
    }
}

struct Counting {
    calls: Arc<AtomicUsize>,
}

impl Handle<u32> for Counting {
    fn handle(&self, _event: &Event<u32>) -> Result<(), BasuError> {
        self.calls.fetch_add(1, Ordering::SeqCst);
        Ok(())
    }
}

struct Failing {
    calls: Arc<AtomicUsize>,
    message: String,
}

impl Handle<u32> for Failing {
    fn handle(&self, _event: &Event<u32>) -> Result<(), BasuError> {
        self.calls.fetch_add(1, Ordering::SeqCst);
        Err(BasuError::HandlerError(self.message.clone()))
    }
}

struct Recording {
    name: String,
    log: Arc<Mutex<Vec<String>>>,
}

impl Handle<String> for Recording {
    fn handle(&self, event: &Event<String>) -> Result<(), BasuError> {
        let line = format!("{}: {}", self.name, event.get_data());
        self.log.lock().unwrap().push(line);
        Ok(())
    }
}

#[test]
fn unknown_type_fails_every_lookup() {
    let mut bus = EventBus::<u32>::new();
    assert!(matches!(
        bus.get_handler_count("missing"),
        Err(BasuError::EventTypeNotFOUND)
    ));
    let id = HandlerId::new();
    assert!(matches!(
        bus.unsubscribe("missing", &id),
        Err(BasuError::EventTypeNotFOUND)
    ));
    let event = Event::new(5u32);
    assert!(matches!(
        bus.publish("missing", &event),
        Err(BasuError::EventTypeNotFOUND)
    ));
}

#[test]
fn subscribing_n_handlers_counts_n_with_distinct_ids() {
    let mut bus = EventBus::<u32>::new();
    let id1 = bus.subscribe("tick", Box::new(Noop)).unwrap();
    let id2 = bus.subscribe("tick", Box::new(Noop)).unwrap();
    let id3 = bus.subscribe("tick", Box::new(Noop)).unwrap();
    assert_eq!(bus.get_handler_count("tick").unwrap(), 3);
    assert_ne!(id1, id2);
    assert_ne!(id1, id3);
    assert_ne!(id2, id3);
}

#[test]
fn unsubscribe_decrements_once_then_is_noop() {
    let mut bus = EventBus::<u32>::new();
    let id1 = bus.subscribe("tick", Box::new(Noop)).unwrap();
    let _id2 = bus.subscribe("tick", Box::new(Noop)).unwrap();
    assert_eq!(bus.get_handler_count("tick").unwrap(), 2);

    bus.unsubscribe("tick", &id1).unwrap();
    assert_eq!(bus.get_handler_count("tick").unwrap(), 1);

    bus.unsubscribe("tick", &id1).unwrap();
    assert_eq!(bus.get_handler_count("tick").unwrap(), 1);
}

#[test]
fn list_returns_each_type_once() {
    let mut bus = EventBus::<u32>::new();
    bus.subscribe("a", Box::new(Noop)).unwrap();
    bus.subscribe("b", Box::new(Noop)).unwrap();
    bus.subscribe("a", Box::new(Noop)).unwrap();
    let mut names = bus.list().unwrap();
    names.sort();
    assert_eq!(names, vec!["a".to_owned(), "b".to_owned()]);
}

#[test]
fn publish_with_zero_handlers_succeeds() {
    let mut bus = EventBus::<u32>::new();
    let id = bus.subscribe("tick", Box::new(Noop)).unwrap();
    bus.unsubscribe("tick", &id).unwrap();
    assert_eq!(bus.get_handler_count("tick").unwrap(), 0);
    let event = Event::new(7u32);
    assert!(bus.publish("tick", &event).is_ok());
}

#[test]
fn publish_invokes_every_registered_handler() {
    let mut bus = EventBus::<u32>::new();
    let first = Arc::new(AtomicUsize::new(0));
    let second = Arc::new(AtomicUsize::new(0));
    bus.subscribe("tick", Box::new(Counting { calls: first.clone() }))
        .unwrap();
    bus.subscribe("tick", Box::new(Counting { calls: second.clone() }))
        .unwrap();
    let event = Event::new(1u32);
    bus.publish("tick", &event).unwrap();
    assert_eq!(first.load(Ordering::SeqCst), 1);
    assert_eq!(second.load(Ordering::SeqCst), 1);
    bus.publish("tick", &event).unwrap();
    assert_eq!(first.load(Ordering::SeqCst), 2);
    assert_eq!(second.load(Ordering::SeqCst), 2);
}

#[test]
fn handler_failure_surfaces_and_peers_still_run() {
    let mut bus = EventBus::<u32>::new();
    let failing_calls = Arc::new(AtomicUsize::new(0));
    let peer_calls = Arc::new(AtomicUsize::new(0));
    bus.subscribe(
        "tick",
        Box::new(Failing {
            calls: failing_calls.clone(),
            message: "boom".to_owned(),
        }),
    )
    .unwrap();
    bus.subscribe("tick", Box::new(Counting { calls: peer_calls.clone() }))
        .unwrap();

    let event = Event::new(2u32);
    let outcome = bus.publish("tick", &event);
    match outcome {
        Err(BasuError::HandlerError(message)) => assert_eq!(message, "boom"),
        other => panic!("expected a handler failure, got {:?}", other),
    }
    assert_eq!(failing_calls.load(Ordering::SeqCst), 1);
    assert_eq!(peer_calls.load(Ordering::SeqCst), 1);
}

#[test]
fn clear_empties_the_bus() {
    let mut bus = EventBus::<u32>::new();
    bus.subscribe("a", Box::new(Noop)).unwrap();
    bus.subscribe("b", Box::new(Noop)).unwrap();
    bus.clear().unwrap();
    assert_eq!(bus.list().unwrap().len(), 0);
    assert!(matches!(
        bus.get_handler_count("a"),
        Err(BasuError::EventTypeNotFOUND)
    ));
    let event = Event::new(3u32);
    assert!(matches!(
        bus.publish("b", &event),
        Err(BasuError::EventTypeNotFOUND)
    ));
}

#[test]
fn echo_scenario() {
    let mut bus = EventBus::<String>::new();
    let log = Arc::new(Mutex::new(Vec::new()));
    let id_a = bus
        .subscribe(
            "echo",
            Box::new(Recording {
                name: "HandlerA".to_owned(),
                log: log.clone(),
            }),
        )
        .unwrap();
    let _id_b = bus
        .subscribe(
            "echo",
            Box::new(Recording {
                name: "HandlerB".to_owned(),
                log: log.clone(),
            }),
        )
        .unwrap();
    assert_eq!(bus.get_handler_count("echo").unwrap(), 2);

    let event = Event::new("hello".to_owned());
    bus.publish("echo", &event).unwrap();
    {
        let mut seen = log.lock().unwrap();
        seen.sort();
        assert_eq!(
            *seen,
            vec!["HandlerA: hello".to_owned(), "HandlerB: hello".to_owned()]
        );
        seen.clear();
    }

    bus.unsubscribe("echo", &id_a).unwrap();
    assert_eq!(bus.get_handler_count("echo").unwrap(), 1);
    bus.publish("echo", &event).unwrap();
    assert_eq!(*log.lock().unwrap(), vec!["HandlerB: hello".to_owned()]);

    bus.clear().unwrap();
    assert_eq!(bus.list().unwrap().len(), 0);
}
