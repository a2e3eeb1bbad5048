//! The entry points: from a source of bytes to a stream of events.

use crate::builder::{Cycle, EventBuilder, SpecCompliantEventBuilder};
use crate::event_stream::{EventStream, StreamView};
use vstd::prelude::*;

verus! {

/// Makes a stream of events of a source of bytes, with a strategy of the caller's.
pub trait Eventsource<Builder: EventBuilder>: Sized {
    /// The stream over this source that builds its events with `event_builder`. It
    /// has read nothing yet.
    fn eventsource(self, event_builder: Builder) -> (stream: EventStream<Self, Builder>)
        ensures
            stream.source == self,
            stream.driver@ == StreamView::start(event_builder.cycle()),
    ;
}

/// Makes a stream of events of a source of bytes by the standard rules: the fields
/// `id`, `event`, `data` and `retry` are read, every other field is passed over.
pub trait SpecCompliantEventsource: Sized {
    /// The stream over this source that builds its events by the standard rules. It
    /// has read nothing yet.
    fn spec_compliant_eventsource(self) -> (stream: EventStream<
        Self,
        SpecCompliantEventBuilder,
    >)
        ensures
            stream.source == self,
            stream.driver@ == StreamView::start(Cycle::fresh()),
    ;
}

impl<S, Builder: EventBuilder> Eventsource<Builder> for S {
    fn eventsource(self, event_builder: Builder) -> (stream: EventStream<Self, Builder>) {
        EventStream::new(self, event_builder)
    }
}

impl<S> SpecCompliantEventsource for S {
    fn spec_compliant_eventsource(self) -> (stream: EventStream<
        Self,
        SpecCompliantEventBuilder,
    >) {
        EventStream::new(self, SpecCompliantEventBuilder::default())
    }
}

} // verus!
