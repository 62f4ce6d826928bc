use vstd::prelude::*;

verus! {

/// Errors which can occur when interacting with `EventBus`.
#[derive(Debug)]
pub enum BasuError {
    /// A lock around the bus state was poisoned by a holder that terminated
    /// abnormally. The verified core never produces this value; it exists for
    /// callers that share a bus behind a mutual-exclusion lock.
    MutexPoisoned,
    /// The event type was never subscribed to.
    EventTypeNotFOUND,
    /// A handler reported a failure while processing an event; the payload is
    /// the handler's own description of the failure.
    HandlerError(String),
}

impl BasuError {
    /// A human-readable description of the error.
    pub fn message(&self) -> (r: String)
        ensures
            match self {
                BasuError::MutexPoisoned => r@ == "Mutex is poisoned"@,
                BasuError::EventTypeNotFOUND => r@ == "event type not found"@,
                BasuError::HandlerError(cause) => r@ == cause@,
            },
    {
        match self {
            BasuError::MutexPoisoned => "Mutex is poisoned".to_string(),
            BasuError::EventTypeNotFOUND => "event type not found".to_string(),
            BasuError::HandlerError(cause) => cause.clone(),
        }
    }
}

} // verus!
