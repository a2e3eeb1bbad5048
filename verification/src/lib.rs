//! Incremental parsing of a Server-Sent-Events byte stream into events.
//!
//! The crate is a state machine without I/O. Bytes go in chunk by chunk, cut at any
//! offset: in the middle of a line, of a line terminator, of a character. Events come
//! out one at a time, in the order in which the blank lines that close them were read.
//! They are the events that the lines of the whole stream make
//! ([`chunking::stream_outcomes`]), however the stream was cut
//! ([`chunking::lemma_transcript_is_stream_outcomes`],
//! [`chunking::lemma_chunking_is_immaterial`]).
//!
//! The wire format is permissive, and so is the crate: fields it does not know and
//! values it cannot use are passed over in silence. Two things are decided here:
//!
//! * Text is UTF-8, and a line that is not well-formed UTF-8 is never patched up: it
//!   ends the stream in [`EventStreamError::Utf8`], after the events that came before
//!   it. Bytes that no line break follows yet are not judged at all.
//! * When the source ends, the bytes left over are read as a last line. The cycle
//!   in progress is not dispatched unless a blank line closed it.
//!
//! [`Driver`] is the state machine, [`LineSplitter`] and [`parse_line`] are the two
//! halves of its reading, and [`EventBuilder`] is the strategy that makes events of
//! lines, with [`SpecCompliantEventBuilder`] as the standard one. Whoever owns the
//! source of the bytes runs the driver: see [`Step`].

pub mod builder;
pub mod chunking;
pub mod event;
pub mod event_stream;
pub mod line;
pub mod raw_line;
pub mod text;
pub mod traits;

pub use builder::{CustomEventBuilder, EventBuilder, SpecCompliantEventBuilder};
pub use chunking::{read_to_end, Received};
pub use event::Event;
pub use event_stream::{Driver, EventStream, EventStreamError, Step, StreamState};
pub use line::LineSplitter;
pub use raw_line::{is_bom, is_lf, parse_line, RawEventLine};
pub use traits::{Eventsource, SpecCompliantEventsource};
