//! The driver: from chunks of bytes to events, one step at a time.
//!
//! The driver does no I/O. Whoever runs it asks it for its next step, and does what
//! the step says: hands an event on, or pulls the next chunk from the source and tells
//! the driver what came of it.

use crate::builder::{Cycle, EventBuilder};
use crate::event::{Event, EventView};
use crate::line::{first_line, lemma_cut_bounds, LineSplitter, SplitterView};
use crate::raw_line::{classify, parse_line};
use vstd::prelude::*;
use vstd::utf8::*;

verus! {

/// Where a driver stands.
#[derive(Debug, Clone, Copy, PartialEq, Eq, Structural)]
pub enum StreamState {
    /// The bytes at hand hold no further line: the driver awaits the next chunk.
    Buffering,
    /// Bytes have come in, or the source has reported its end: the driver emits what
    /// the bytes at hand make, without touching the source.
    Draining,
    /// The source is exhausted and the bytes at hand are spent.
    Closed,
    /// The stream has failed. Nothing follows.
    Errored,
}

/// Why a stream of events ended early.
#[derive(Debug, PartialEq, Eq)]
pub enum EventStreamError<E> {
    /// A line of the stream was not well-formed UTF-8.
    Utf8,
    /// The source of the bytes failed.
    Transport(E),
}

/// What a driver asks of whoever runs it.
#[derive(Debug, PartialEq, Eq)]
pub enum Step {
    /// Hand this event to the consumer.
    Event(Event),
    /// A line was not well-formed UTF-8: tell the consumer, once; the stream is over.
    Invalid,
    /// Nothing is ready: pull the next chunk from the source.
    Pull,
    /// The stream is over.
    Done,
}

/// What a [`Step`] holds, as contracts see it.
pub ghost enum StepView {
    Event(EventView),
    Invalid,
    Pull,
    Done,
}

impl View for Step {
    type V = StepView;

    open spec fn view(&self) -> StepView {
        match *self {
            Step::Event(event) => StepView::Event(event@),
            Step::Invalid => StepView::Invalid,
            Step::Pull => StepView::Pull,
            Step::Done => StepView::Done,
        }
    }
}

impl Step {
    /// What the consumer of the stream receives for this step: the event, or the
    /// error that ended the stream; nothing for a step that emits nothing.
    pub fn into_item<E>(self) -> (item: Option<Result<Event, EventStreamError<E>>>)
        ensures
            match self {
                Step::Event(event) => item == Some(Ok::<Event, EventStreamError<E>>(event)),
                Step::Invalid => item == Some(
                    Err::<Event, EventStreamError<E>>(EventStreamError::Utf8),
                ),
                Step::Pull => item is None,
                Step::Done => item is None,
            },
    {
        match self {
            Step::Event(event) => Some(Ok(event)),
            Step::Invalid => Some(Err(EventStreamError::Utf8)),
            Step::Pull => None,
            Step::Done => None,
        }
    }
}

/// What a consumer receives from a stream: an event, or the news that a line was
/// not well-formed UTF-8.
pub ghost enum Outcome {
    Event(EventView),
    Invalid,
}

/// What a [`Driver`] holds, as contracts see it.
pub ghost struct StreamView {
    /// The line splitter: the bytes not yet read as lines.
    pub lines: SplitterView,
    /// The builder: the cycle in progress.
    pub cycle: Cycle,
    /// Where the driver stands.
    pub state: StreamState,
    /// Whether the source has reported that it is exhausted.
    pub exhausted: bool,
}

impl StreamView {
    /// A driver that has received nothing, around a builder whose cycle is `cycle`.
    pub open spec fn start(cycle: Cycle) -> StreamView {
        StreamView {
            lines: SplitterView { pending: Seq::empty(), fresh: true },
            cycle,
            state: StreamState::Buffering,
            exhausted: false,
        }
    }

    /// Whether nothing can follow.
    pub open spec fn is_over(self) -> bool {
        self.state is Closed || self.state is Errored
    }

    /// Whether the source can still deliver.
    pub open spec fn is_live(self) -> bool {
        !self.is_over() && !self.exhausted
    }

    /// The driver after the source delivered `chunk`. Only a live source delivers.
    pub open spec fn fed(self, chunk: Seq<u8>) -> StreamView {
        if self.is_live() {
            StreamView {
                lines: SplitterView { pending: self.lines.pending + chunk, ..self.lines },
                state: StreamState::Draining,
                ..self
            }
        } else {
            self
        }
    }

    /// The driver after the source reported that it is exhausted: unless the stream
    /// is over, what is left of the bytes at hand is now to be emitted.
    pub open spec fn finished(self) -> StreamView {
        StreamView {
            state: if self.is_over() {
                self.state
            } else {
                StreamState::Draining
            },
            exhausted: true,
            ..self
        }
    }

    /// The driver after the source failed: the bytes at hand are dropped.
    pub open spec fn failed(self) -> StreamView {
        if self.is_over() {
            self
        } else {
            StreamView {
                lines: SplitterView { pending: Seq::empty(), ..self.lines },
                state: StreamState::Errored,
                ..self
            }
        }
    }

    /// The driver after it found that the bytes at hand hold no further line: it
    /// awaits the next chunk, or is closed if the source is exhausted.
    pub open spec fn settled(self) -> StreamView {
        if self.is_over() {
            self
        } else if self.exhausted {
            StreamView { state: StreamState::Closed, ..self }
        } else {
            StreamView { state: StreamState::Buffering, ..self }
        }
    }
}

/// The driver after it read one more line, with what the line made it emit; `None`
/// where the bytes at hand hold no further line, or the stream is over.
///
/// A line that is not well-formed UTF-8 ends the stream in error. Any other line goes
/// to the builder, and if it closes the cycle, the builder dispatches. Once the source
/// is exhausted, the end of the bytes ends the last line.
pub open spec fn advance<B: EventBuilder>(v: StreamView) -> Option<(StreamView, Option<Outcome>)> {
    if v.is_over() {
        None
    } else {
        match first_line(v.lines, v.exhausted) {
            None => None,
            Some((line, rest)) => Some(
                if !valid_utf8(line) {
                    (
                        StreamView {
                            lines: SplitterView { pending: Seq::empty(), ..rest },
                            state: StreamState::Errored,
                            ..v
                        },
                        Some(Outcome::Invalid),
                    )
                } else {
                    let cycle = B::added(v.cycle, classify(line));
                    if cycle.complete {
                        (
                            StreamView {
                                lines: rest,
                                cycle: B::reset(cycle),
                                state: StreamState::Draining,
                                ..v
                            },
                            match B::dispatched(cycle) {
                                Some(event) => Some(Outcome::Event(event)),
                                None => None,
                            },
                        )
                    } else {
                        (StreamView { lines: rest, cycle, state: StreamState::Draining, ..v }, None)
                    }
                },
            ),
        }
    }
}

/// Reading a line leaves fewer bytes at hand.
pub proof fn lemma_advance_shrinks<B: EventBuilder>(v: StreamView)
    ensures
        advance::<B>(v) matches Some((next, _)) ==> next.lines.pending.len()
            < v.lines.pending.len(),
{
    lemma_cut_bounds(v.lines.pending, v.exhausted);
}

/// The next step of a driver in state `v`, and the state it is in then: lines are
/// read until one of them makes the driver emit something, or none is left.
pub open spec fn step<B: EventBuilder>(v: StreamView) -> (StreamView, StepView)
    decreases v.lines.pending.len(),
    via step_decreases::<B>
{
    match advance::<B>(v) {
        None => (
            v.settled(),
            if v.is_live() {
                StepView::Pull
            } else {
                StepView::Done
            },
        ),
        Some((next, Some(Outcome::Event(event)))) => (next, StepView::Event(event)),
        Some((next, Some(Outcome::Invalid))) => (next, StepView::Invalid),
        Some((next, None)) => step::<B>(next),
    }
}

#[via_fn]
proof fn step_decreases<B: EventBuilder>(v: StreamView) {
    lemma_advance_shrinks::<B>(v);
}

/// The state machine that turns the chunks of a byte stream into events.
pub struct Driver<B> {
    lines: LineSplitter,
    builder: B,
    state: StreamState,
    exhausted: bool,
}

impl<B: EventBuilder> View for Driver<B> {
    type V = StreamView;

    closed spec fn view(&self) -> StreamView {
        StreamView {
            lines: self.lines@,
            cycle: self.builder.cycle(),
            state: self.state,
            exhausted: self.exhausted,
        }
    }
}

impl<B: EventBuilder> Driver<B> {
    /// A driver that has received nothing, around `builder`.
    pub fn new(builder: B) -> (driver: Driver<B>)
        ensures
            driver@ == StreamView::start(builder.cycle()),
    {
        Driver {
            lines: LineSplitter::new(),
            builder,
            state: StreamState::Buffering,
            exhausted: false,
        }
    }

    /// Where the driver stands.
    pub fn state(&self) -> (state: StreamState)
        ensures
            state == self@.state,
    {
        self.state
    }

    /// Whether the stream is over: closed, or failed.
    pub fn is_over(&self) -> (over: bool)
        ensures
            over == self@.is_over(),
    {
        self.state == StreamState::Closed || self.state == StreamState::Errored
    }

    /// Takes in a chunk that the source delivered, cut wherever the source cut it.
    /// Once the source is exhausted or the stream is over, nothing is taken in.
    pub fn feed(&mut self, chunk: &[u8])
        ensures
            final(self)@ == old(self)@.fed(chunk@),
    {
        if !self.is_over() && !self.exhausted {
            self.lines.push(chunk);
            self.state = StreamState::Draining;
        }
    }

    /// Takes note that the source is exhausted.
    pub fn finish(&mut self)
        ensures
            final(self)@ == old(self)@.finished(),
    {
        self.exhausted = true;
        if !self.is_over() {
            self.state = StreamState::Draining;
        }
    }

    /// Takes note that the source failed with `error`: the bytes at hand are dropped
    /// and no further event comes. Returns the error to report to the consumer.
    pub fn fail<E>(&mut self, error: E) -> (report: EventStreamError<E>)
        ensures
            final(self)@ == old(self)@.failed(),
            report == EventStreamError::Transport(error),
    {
        if !self.is_over() {
            self.lines.clear();
            self.state = StreamState::Errored;
        }
        EventStreamError::Transport(error)
    }

    /// Says what to do next, reading lines from the bytes at hand as far as needed:
    /// up to the first line that closes a cycle with an event to hand out, or that is
    /// not well-formed UTF-8.
    pub fn next_step(&mut self) -> (next: Step)
        ensures
            (final(self)@, next@) == step::<B>(old(self)@),
    {
        loop
            invariant
                step::<B>(self@) == step::<B>(old(self)@),
            decreases self@.lines.pending.len(),
        {
            proof {
                lemma_advance_shrinks::<B>(self@);
            }
            if self.is_over() {
                return Step::Done;
            }
            match self.lines.next_line(self.exhausted) {
                None => {
                    if self.exhausted {
                        self.state = StreamState::Closed;
                        return Step::Done;
                    } else {
                        self.state = StreamState::Buffering;
                        return Step::Pull;
                    }
                },
                Some(bytes) => match parse_line(bytes) {
                    None => {
                        self.lines.clear();
                        self.state = StreamState::Errored;
                        return Step::Invalid;
                    },
                    Some(line) => {
                        self.state = StreamState::Draining;
                        self.builder.add(line);
                        if self.builder.is_complete() {
                            match self.builder.dispatch() {
                                Some(event) => {
                                    return Step::Event(event);
                                },
                                None => {},
                            }
                        }
                    },
                },
            }
        }
    }
}

/// A source of bytes together with the driver that reads it.
///
/// The driver never touches the source. Whoever runs the stream pulls a chunk from
/// `source` when `driver` asks for one.
pub struct EventStream<S, B> {
    /// Where the bytes come from.
    pub source: S,
    /// What makes events of them.
    pub driver: Driver<B>,
}

impl<S, B: EventBuilder> EventStream<S, B> {
    /// A stream over `source` that has read nothing, with `builder` as its strategy.
    pub fn new(source: S, builder: B) -> (stream: EventStream<S, B>)
        ensures
            stream.source == source,
            stream.driver@ == StreamView::start(builder.cycle()),
    {
        EventStream { source, driver: Driver::new(builder) }
    }
}

} // verus!
