//! The event handed to consumers.

use vstd::prelude::*;

verus! {

/// A dispatched server-sent event.
#[derive(Debug, PartialEq, Eq)]
pub struct Event {
    /// The event type; `"message"` unless the stream named another.
    pub event: String,
    /// The payload: the `data` lines of the cycle joined by single line feeds.
    pub data: String,
    /// The last event id seen on the stream so far; empty if there was none.
    pub id: String,
    /// The reconnection time in milliseconds, where the cycle carried a valid one.
    pub retry: Option<u64>,
}

/// What an [`Event`] holds, as contracts see it.
pub ghost struct EventView {
    pub event: Seq<char>,
    pub data: Seq<char>,
    pub id: Seq<char>,
    pub retry: Option<u64>,
}

impl View for Event {
    type V = EventView;

    open spec fn view(&self) -> EventView {
        EventView { event: self.event@, data: self.data@, id: self.id@, retry: self.retry }
    }
}

impl Event {
    /// The event with every text field empty and no reconnection time.
    pub open spec fn blank() -> EventView {
        EventView { event: Seq::empty(), data: Seq::empty(), id: Seq::empty(), retry: None }
    }
}

impl Clone for Event {
    fn clone(&self) -> (copy: Event)
        ensures
            copy@ == self@,
    {
        Event {
            event: self.event.clone(),
            data: self.data.clone(),
            id: self.id.clone(),
            retry: self.retry,
        }
    }
}

impl Default for Event {
    fn default() -> (event: Event)
        ensures
            event@ == Event::blank(),
    {
        Event { event: String::new(), data: String::new(), id: String::new(), retry: None }
    }
}

} // verus!
