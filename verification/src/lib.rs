//! An in-process, typed publish/subscribe registry.
//!
//! Callers register named event types, attach handlers to them, and publish
//! typed payloads that are dispatched to every handler currently registered
//! for that type. The registry itself (subscription, unsubscription, the
//! dispatch snapshot and failure aggregation) is specified and verified
//! here; handlers are caller-supplied logic behind the [`Handle`] capability.

/// Errors reported by the bus.
pub mod error;
/// The event envelope handed to handlers.
pub mod event;

mod bus;
mod dispatch;
mod handler;
mod registry;

pub use bus::{
    BusView, EventBus, lemma_subscribe_increments_count, lemma_unsubscribe_absent_is_noop,
    lemma_unsubscribe_decrements_count, lemma_unsubscribe_idempotent, registry_in, table_map,
    unique_names, with_subscription, without_subscription,
};
pub use dispatch::{
    first_failure, first_failure_spec, lemma_first_failure_all_ok,
    lemma_first_failure_is_first_error,
};
pub use handler::{Handle, Handler};
pub use registry::{HandlerId, HandlerMap, Registered, entries_map, unique_ids};
