use vstd::prelude::*;

verus! {

/// Abstraction for representing an event that can hold any data type.
///
/// An event is an immutable wrapper around one payload value: it is created
/// for a publish call, handlers receive read-only access to it, and it is
/// discarded when dispatch completes.
#[derive(Debug)]
pub struct Event<T> {
    /// Event data which can be processed by a handler.
    pub data: T,
}

impl<T> Event<T> {
    /// Create a new event that takes ownership of `data`.
    pub fn new(data: T) -> (e: Event<T>)
        ensures
            e.data == data,
    {
        Event { data }
    }

    /// Return a read-only view of the data held in the event.
    pub fn get_data(&self) -> (r: &T)
        ensures
            *r == self.data,
    {
        &self.data
    }
}

} // verus!
