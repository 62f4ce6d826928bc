use vstd::prelude::*;
use crate::error::BasuError;
use crate::event::Event;

verus! {

/// Capability implemented by every event handler.
///
/// A handler is caller-supplied logic: the bus promises nothing about what a
/// handler computes, only that dispatch hands it read-only access to the
/// published event and collects its reported success or failure.
pub trait Handle<T>: Send + Sync {
    /// Handle an event published from `EventBus`.
    fn handle(&self, event: &Event<T>) -> Result<(), BasuError>;
}

/// A handler as stored by the bus: one boxed implementer of `Handle`.
pub type Handler<T> = Box<dyn Handle<T>>;

} // verus!
