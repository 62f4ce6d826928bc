use basu::error::BasuError;
use basu::event::Event;
use basu::{first_failure, HandlerId};

#[test]
fn event_wraps_and_returns_its_payload() {
    let event = Event::new(41u64);
    assert_eq!(*event.get_data(), 41);
    assert_eq!(event.data, 41);

    let text = Event::new("payload".to_owned());
    assert_eq!(text.get_data(), "payload");
}

#[test]
fn handler_ids_are_distinct() {
    let one = HandlerId::new();
    let two = HandlerId::new();
    assert_ne!(one, two);
}

#[test]
fn error_messages_are_exact() {
    assert_eq!(BasuError::MutexPoisoned.message(), "Mutex is poisoned");
    assert_eq!(BasuError::EventTypeNotFOUND.message(), "event type not found");
    let wrapped = BasuError::HandlerError("handler gave up".to_owned());
    assert_eq!(wrapped.message(), "handler gave up");
}

#[test]
fn first_failure_of_no_outcomes_is_success() {
    assert!(first_failure(Vec::new()).is_ok());
}

#[test]
fn first_failure_of_successes_is_success() {
    let results: Vec<Result<(), BasuError>> = vec![Ok(()), Ok(()), Ok(())];
    assert!(first_failure(results).is_ok());
}

#[test]
fn first_failure_returns_the_earliest_error() {
    let results: Vec<Result<(), BasuError>> = vec![
        Ok(()),
        Err(BasuError::HandlerError("first".to_owned())),
        Err(BasuError::HandlerError("second".to_owned())),
        Ok(()),
    ];
    match first_failure(results) {
        Err(BasuError::HandlerError(message)) => assert_eq!(message, "first"),
        other => panic!("expected the earliest failure, got {:?}", other),
    }
}
