//! Event builders: how the lines of a cycle make up an event.
//!
//! A builder takes the lines of the stream one by one. An empty line closes the cycle;
//! the builder is then asked to dispatch, hands out the event that the cycle made, if
//! it made one, and begins the next cycle. Only the last event id outlives a cycle.

use crate::event::{Event, EventView};
use crate::raw_line::{is_lf, RawEventLine, RawLine};
use crate::text::{has_nul, millis, parse_millis, str_eq};
use vstd::prelude::*;
use vstd::string::*;

verus! {

/// The state of a builder between two lines, as contracts see it.
pub ghost struct Cycle {
    /// The event type buffer.
    pub event: Seq<char>,
    /// The data buffer.
    pub data: Seq<char>,
    /// The last event id buffer.
    pub id: Seq<char>,
    /// The reconnection time, in milliseconds.
    pub retry: Option<u64>,
    /// Whether an empty line has closed the cycle and nothing was dispatched since.
    pub complete: bool,
}

impl Cycle {
    /// The cycle of a builder that has seen nothing.
    pub open spec fn fresh() -> Cycle {
        Cycle {
            event: Seq::empty(),
            data: Seq::empty(),
            id: Seq::empty(),
            retry: None,
            complete: false,
        }
    }

    /// The event that dispatching hands out: none where the data buffer is empty;
    /// else the buffers as they are, but for a single line feed at the end of the
    /// data, which is taken off, and for an empty event type, which reads `"message"`:
    /// an event type that was set to the empty text counts as one that was not set.
    pub open spec fn dispatched(self) -> Option<EventView> {
        if self.data.len() == 0 {
            None
        } else {
            Some(
                EventView {
                    event: if self.event.len() == 0 {
                        "message"@
                    } else {
                        self.event
                    },
                    data: if self.data.last() == '\n' {
                        self.data.drop_last()
                    } else {
                        self.data
                    },
                    id: self.id,
                    retry: self.retry,
                },
            )
        }
    }

    /// The cycle that follows a dispatch: fresh, but for the last event id.
    pub open spec fn next(self) -> Cycle {
        Cycle { id: self.id, ..Cycle::fresh() }
    }

    /// The cycle after `line`, by the standard rules: `event` sets the event type,
    /// `data` adds its value and a line feed to the data, `id` sets the last event id
    /// unless its value holds U+0000, `retry` sets the reconnection time if its value
    /// is a number; an empty line closes the cycle; comments, other fields, and values
    /// that are refused change nothing.
    pub open spec fn with_line(self, line: RawLine) -> Cycle {
        match line {
            RawLine::Empty => Cycle { complete: true, ..self },
            RawLine::Comment(_) => self,
            RawLine::Field(name, _) => {
                let value = line.value();
                if name == "event"@ {
                    Cycle { event: value, ..self }
                } else if name == "data"@ {
                    Cycle { data: self.data + value + seq!['\n'], ..self }
                } else if name == "id"@ {
                    if value.contains('\0') {
                        self
                    } else {
                        Cycle { id: value, ..self }
                    }
                } else if name == "retry"@ {
                    match millis(value) {
                        Some(ms) => Cycle { retry: Some(ms), ..self },
                        None => self,
                    }
                } else {
                    self
                }
            },
        }
    }
}

/// Whether the standard rules know a field of this name.
pub open spec fn is_standard_field(name: Seq<char>) -> bool {
    name == "event"@ || name == "data"@ || name == "id"@ || name == "retry"@
}

impl Cycle {
    /// The cycle after `line`, by the rules of [`CustomEventBuilder`]: a field that the
    /// standard rules do not know makes its name the event type and its value the
    /// whole of the data, with no line feed added and whatever the data held before;
    /// every other line is read by the standard rules.
    pub open spec fn with_custom_line(self, line: RawLine) -> Cycle {
        match line {
            RawLine::Field(name, _) => if is_standard_field(name) {
                self.with_line(line)
            } else {
                Cycle { event: name, data: line.value(), ..self }
            },
            _ => self.with_line(line),
        }
    }
}

/// A cycle hands out an event when it is dispatched exactly if it holds data. The
/// cycle that follows the dispatch, whether an event came of it or not, is fresh but
/// for the last event id, which it still holds.
pub proof fn lemma_dispatch_keeps_id(cycle: Cycle)
    ensures
        cycle.dispatched() is Some <==> cycle.data.len() > 0,
        cycle.next().id == cycle.id,
        cycle.next() == (Cycle { id: cycle.id, ..Cycle::fresh() }),
{
}

/// By the standard rules a cycle is closed by an empty line and by nothing else, and
/// the last event id changes with an `id` field whose value is free of U+0000 and
/// with nothing else.
pub proof fn lemma_what_a_line_changes(cycle: Cycle, line: RawLine)
    ensures
        cycle.with_line(line).complete == (cycle.complete || line is Empty),
        cycle.with_line(line).id == if line matches RawLine::Field(name, _) && name == "id"@
            && !line.value().contains('\0') {
            line.value()
        } else {
            cycle.id
        },
{
    reveal_strlit("event");
    reveal_strlit("data");
    reveal_strlit("id");
    assert("id"@.len() != "event"@.len() && "id"@.len() != "data"@.len());
}

/// A field that the standard rules do not know changes nothing by the standard rules;
/// by the rules of [`CustomEventBuilder`] its name becomes the event type and its value
/// the data.
pub proof fn lemma_unknown_field(cycle: Cycle, line: RawLine)
    requires
        line matches RawLine::Field(name, _) && !is_standard_field(name),
    ensures
        cycle.with_line(line) == cycle,
        cycle.with_custom_line(line) == (Cycle {
            event: line->Field_0,
            data: line.value(),
            ..cycle
        }),
{
}

/// A strategy for building events out of lines.
///
/// The three methods are what a strategy must offer. The four functions before them
/// say, for the contracts, what the methods do: a verified strategy defines them, and
/// is held to them. Of a strategy that leaves them undefined nothing is known.
pub trait EventBuilder {
    /// The cycle in progress.
    open spec fn cycle(&self) -> Cycle {
        arbitrary()
    }

    /// The cycle after `line` was added to `cycle`.
    open spec fn added(cycle: Cycle, line: RawLine) -> Cycle {
        arbitrary()
    }

    /// The event that a dispatch of `cycle` hands out, if any.
    open spec fn dispatched(cycle: Cycle) -> Option<EventView> {
        arbitrary()
    }

    /// The cycle that a dispatch of `cycle` leaves behind.
    open spec fn reset(cycle: Cycle) -> Cycle {
        arbitrary()
    }

    /// Takes the next line of the stream into the cycle. This never fails: what a
    /// strategy cannot use, it passes over.
    fn add(&mut self, line: RawEventLine<'_>)
        ensures
            final(self).cycle() == Self::added(old(self).cycle(), line@),
    ;

    /// Ends the cycle: hands out its event, if it made one, and begins the next.
    fn dispatch(&mut self) -> (event: Option<Event>)
        ensures
            final(self).cycle() == Self::reset(old(self).cycle()),
            match event {
                Some(e) => Self::dispatched(old(self).cycle()) == Some(e@),
                None => Self::dispatched(old(self).cycle()) is None,
            },
    ;

    /// Whether an empty line has closed the cycle and `dispatch` is due.
    fn is_complete(&self) -> (complete: bool)
        ensures
            complete == self.cycle().complete,
    ;
}

/// The builder that follows the standard rules: it reads the fields `event`, `data`,
/// `id` and `retry`, and passes over every other.
#[derive(Debug)]
pub struct SpecCompliantEventBuilder {
    event: Event,
    complete: bool,
}

impl Default for SpecCompliantEventBuilder {
    fn default() -> (builder: SpecCompliantEventBuilder)
        ensures
            builder.cycle() == Cycle::fresh(),
    {
        SpecCompliantEventBuilder { event: Event::default(), complete: false }
    }
}

impl EventBuilder for SpecCompliantEventBuilder {
    closed spec fn cycle(&self) -> Cycle {
        Cycle {
            event: self.event.event@,
            data: self.event.data@,
            id: self.event.id@,
            retry: self.event.retry,
            complete: self.complete,
        }
    }

    open spec fn added(cycle: Cycle, line: RawLine) -> Cycle {
        cycle.with_line(line)
    }

    open spec fn dispatched(cycle: Cycle) -> Option<EventView> {
        cycle.dispatched()
    }

    open spec fn reset(cycle: Cycle) -> Cycle {
        cycle.next()
    }

    fn add(&mut self, line: RawEventLine<'_>) {
        match line {
            RawEventLine::Field(name, value) => {
                let value: &str = match value {
                    Some(v) => v,
                    None => "",
                };
                proof {
                    reveal_strlit("");
                    assert(value@ =~= line@.value());
                }
                if str_eq(name, "event") {
                    self.event.event = value.to_owned();
                } else if str_eq(name, "data") {
                    proof {
                        reveal_strlit("\n");
                        assert("\n"@ =~= seq!['\n']);
                    }
                    self.event.data.append(value);
                    self.event.data.append("\n");
                } else if str_eq(name, "id") {
                    if !has_nul(value) {
                        self.event.id = value.to_owned();
                    }
                } else if str_eq(name, "retry") {
                    match parse_millis(value) {
                        Some(ms) => {
                            self.event.retry = Some(ms);
                        },
                        None => {},
                    }
                }
            },
            RawEventLine::Comment(_) => {},
            RawEventLine::Empty => {
                self.complete = true;
            },
        }
    }

    /// A cycle without data hands out nothing, and the last event id outlives every
    /// dispatch, whether it handed out an event or not.
    fn dispatch(&mut self) -> (event: Option<Event>)
        ensures
            old(self).cycle().data.len() == 0 ==> event is None,
            final(self).cycle().id == old(self).cycle().id,
    {
        let mut event = Event::default();
        event.id = self.event.id.clone();
        core::mem::swap(&mut self.event, &mut event);
        self.complete = false;
        if event.data.as_str().is_empty() {
            return None;
        }
        let count: usize = event.data.as_str().unicode_len();
        if is_lf(event.data.as_str().get_char(count - 1)) {
            let kept = event.data.as_str().substring_char(0, count - 1).to_owned();
            event.data = kept;
        }
        if event.event.as_str().is_empty() {
            event.event = "message".to_owned();
        }
        Some(event)
    }

    fn is_complete(&self) -> (complete: bool) {
        self.complete
    }
}

/// A builder that makes an event of every field it does not know: a line
/// `name: value`, where `name` is none of `event`, `data`, `id` and `retry`, sets the
/// event type to `name` and the data to `value`. All else is as with
/// [`SpecCompliantEventBuilder`].
#[derive(Debug)]
pub struct CustomEventBuilder {
    standard: SpecCompliantEventBuilder,
}

impl Default for CustomEventBuilder {
    fn default() -> (builder: CustomEventBuilder)
        ensures
            builder.cycle() == Cycle::fresh(),
    {
        CustomEventBuilder { standard: SpecCompliantEventBuilder::default() }
    }
}

impl EventBuilder for CustomEventBuilder {
    closed spec fn cycle(&self) -> Cycle {
        self.standard.cycle()
    }

    open spec fn added(cycle: Cycle, line: RawLine) -> Cycle {
        cycle.with_custom_line(line)
    }

    open spec fn dispatched(cycle: Cycle) -> Option<EventView> {
        cycle.dispatched()
    }

    open spec fn reset(cycle: Cycle) -> Cycle {
        cycle.next()
    }

    fn add(&mut self, line: RawEventLine<'_>) {
        match line {
            RawEventLine::Field(name, value) => {
                if str_eq(name, "event") || str_eq(name, "data") || str_eq(name, "id") || str_eq(
                    name,
                    "retry",
                ) {
                    self.standard.add(line);
                } else {
                    let value: &str = match value {
                        Some(v) => v,
                        None => "",
                    };
                    proof {
                        reveal_strlit("");
                        assert(value@ =~= line@.value());
                    }
                    self.standard.event.event = name.to_owned();
                    self.standard.event.data = value.to_owned();
                }
            },
            _ => {
                self.standard.add(line);
            },
        }
    }

    fn dispatch(&mut self) -> (event: Option<Event>) {
        self.standard.dispatch()
    }

    fn is_complete(&self) -> (complete: bool) {
        self.standard.is_complete()
    }
}

} // verus!
