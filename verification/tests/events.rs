use std::time::Duration;

use eventsource_stream::{
    is_lf, read_to_end, Received, Driver, Event, EventBuilder, EventStream, EventStreamError, Eventsource,
    RawEventLine, SpecCompliantEventBuilder, SpecCompliantEventsource, Step, StreamState,
};

/// Runs a stream over chunks held in memory the way an adapter over a real source
/// would: it does what each step says.
fn run<B: EventBuilder>(
    mut stream: EventStream<std::vec::IntoIter<Vec<u8>>, B>,
) -> Vec<Result<Event, EventStreamError<()>>> {
    let mut seen = Vec::new();
    loop {
        match stream.driver.next_step() {
            Step::Done => return seen,
            Step::Pull => match stream.source.next() {
                Some(chunk) => stream.driver.feed(&chunk),
                None => stream.driver.finish(),
            },
            step => seen.push(step.into_item().unwrap()),
        }
    }
}

fn chunks_of(parts: &[&[u8]]) -> std::vec::IntoIter<Vec<u8>> {
    parts.iter().map(|p| p.to_vec()).collect::<Vec<_>>().into_iter()
}

fn standard(parts: &[&[u8]]) -> Vec<Result<Event, EventStreamError<()>>> {
    run(chunks_of(parts).spec_compliant_eventsource())
}

fn event(event: &str, data: &str, id: &str, retry: Option<u64>) -> Event {
    Event { event: event.to_string(), data: data.to_string(), id: id.to_string(), retry }
}

#[derive(Default, Debug)]
pub struct CustomEventBuilder {
    event: Event,
    is_complete: bool,
}

impl EventBuilder for CustomEventBuilder {
    fn add(&mut self, line: RawEventLine) {
        match line {
            RawEventLine::Field(field, val) => {
                let val = val.unwrap_or("");
                match field {
                    "event" => {
                        self.event.event = val.to_string();
                    }
                    "data" => {
                        self.event.data.push_str(val);
                        self.event.data.push('\u{000A}');
                    }
                    "id" => {
                        if !val.contains('\u{0000}') {
                            self.event.id = val.to_string()
                        }
                    }
                    "retry" => {
                        if let Ok(val) = val.parse::<u64>() {
                            self.event.retry = Some(val)
                        }
                    }
                    other => {
                        self.event.event = other.to_string();
                        self.event.data = val.to_string();
                    }
                }
            }
            RawEventLine::Comment(_) => {}
            RawEventLine::Empty => self.is_complete = true,
        }
    }

    fn dispatch(&mut self) -> Option<Event> {
        let builder = core::mem::take(self);
        let mut event = builder.event;
        self.event.id = event.id.clone();

        if event.data.is_empty() {
            return None;
        }

        if is_lf(event.data.chars().next_back().unwrap()) {
            event.data.pop();
        }

        if event.event.is_empty() {
            event.event = "message".to_string();
        }

        Some(event)
    }

    fn is_complete(&self) -> bool {
        self.is_complete
    }
}

#[test]
fn populate_fields() {
    let body = "

:

event: my-event\r\ndata:line1
data: line2
:
id: my-id
:should be ignored too\rretry:42

data:second

data:ignored
";
    let mut seen = standard(&[body.as_bytes()]).into_iter();

    let event = seen.next().unwrap().unwrap();
    assert_eq!("my-event", event.event);
    assert_eq!(
        "line1
line2",
        event.data
    );
    assert_eq!("my-id", event.id);
    assert_eq!(
        std::time::Duration::from_millis(42),
        Duration::from_millis(event.retry.unwrap())
    );

    let event = seen.next().unwrap().unwrap();
    assert_eq!("message", event.event);
    assert_eq!("second", event.data);

    let event = seen.next();
    assert!(event.is_none());
}

#[test]
fn populate_fields_non_compliant() {
    let body = "
data: {\"my\": \"data\"}

custom_field: custom_data

data: {\"my\": \"data2\"}

different_field: different_data

";
    let stream = chunks_of(&[body.as_bytes()]).eventsource(CustomEventBuilder::default());
    let mut seen = run(stream).into_iter();

    let event = seen.next().unwrap().unwrap();
    assert_eq!("message", event.event);
    assert_eq!("{\"my\": \"data\"}", event.data);

    let event = seen.next().unwrap().unwrap();
    assert_eq!("custom_field", event.event);
    assert_eq!("custom_data", event.data);

    let event = seen.next().unwrap().unwrap();
    assert_eq!("message", event.event);
    assert_eq!("{\"my\": \"data2\"}", event.data);

    let event = seen.next().unwrap().unwrap();
    assert_eq!("different_field", event.event);
    assert_eq!("different_data", event.data);

    let event = seen.next();
    assert!(event.is_none());
}

#[test]
fn single_data_line_gives_a_message_event() {
    let seen = standard(&[b"data: X\n\n"]);
    assert_eq!(seen, vec![Ok(event("message", "X", "", None))]);
}

#[test]
fn data_lines_are_joined_by_one_line_feed() {
    let seen = standard(&[b"data: line1\ndata: line2\n\n"]);
    assert_eq!(seen.len(), 1);
    assert_eq!(seen[0].as_ref().unwrap().data, "line1\nline2");
}

#[test]
fn id_carries_over_to_later_events() {
    let seen = standard(&[b"id: A\ndata: x\n\n", b"data: y\n\n"]);
    assert_eq!(
        seen,
        vec![Ok(event("message", "x", "A", None)), Ok(event("message", "y", "A", None))]
    );
}

#[test]
fn id_is_replaced_by_a_later_id() {
    let seen = standard(&[b"id: A\ndata: x\n\nid: B\ndata: y\n\nid\ndata: z\n\n"]);
    assert_eq!(
        seen,
        vec![
            Ok(event("message", "x", "A", None)),
            Ok(event("message", "y", "B", None)),
            Ok(event("message", "z", "", None)),
        ]
    );
}

#[test]
fn retry_that_is_no_number_is_ignored() {
    let seen = standard(&[b"retry: abc\n\ndata: x\n\n"]);
    assert_eq!(seen, vec![Ok(event("message", "x", "", None))]);
}

#[test]
fn retry_belongs_to_its_cycle_only() {
    let seen = standard(&[b"retry: 7\ndata: x\n\ndata: y\n\n"]);
    assert_eq!(
        seen,
        vec![Ok(event("message", "x", "", Some(7))), Ok(event("message", "y", "", None))]
    );
    let seen = standard(&[b"retry: 7\n\ndata: y\n\n"]);
    assert_eq!(seen, vec![Ok(event("message", "y", "", None))]);
}

#[test]
fn retry_reads_exact_numbers() {
    let retry_of = |value: &str| {
        let body = format!("retry:{}\ndata: x\n\n", value);
        standard(&[body.as_bytes()])[0].as_ref().unwrap().retry
    };
    assert_eq!(retry_of("0"), Some(0));
    assert_eq!(retry_of(" 42"), Some(42));
    assert_eq!(retry_of("007"), Some(7));
    assert_eq!(retry_of("18446744073709551615"), Some(u64::MAX));
    assert_eq!(retry_of("18446744073709551616"), None);
    assert_eq!(retry_of("99999999999999999999999"), None);
    assert_eq!(retry_of(""), None);
    assert_eq!(retry_of("+5"), None);
    assert_eq!(retry_of("-5"), None);
    assert_eq!(retry_of("5 "), None);
    assert_eq!(retry_of("  5"), None);
    assert_eq!(retry_of("1.5"), None);
    assert_eq!(retry_of("\u{0665}"), None);
}

#[test]
fn custom_strategy_takes_unknown_field_as_event() {
    let stream = chunks_of(&[b"customfield: v\n\n"]).eventsource(CustomEventBuilder::default());
    let seen = run(stream);
    assert_eq!(seen, vec![Ok(event("customfield", "v", "", None))]);
}

#[test]
fn custom_builder_of_the_library_takes_unknown_field_as_event() {
    let custom = |parts: &[&[u8]]| {
        run(chunks_of(parts).eventsource(eventsource_stream::CustomEventBuilder::default()))
    };
    assert_eq!(custom(&[b"customfield: v\n\n"]), vec![Ok(event("customfield", "v", "", None))]);
    // The value takes the place of the data, and no line feed is added to it.
    assert_eq!(
        custom(&[b"data: lost\nid: 4\nretry: 9\nfield: a\n\n"]),
        vec![Ok(event("field", "a", "4", Some(9)))]
    );
    assert_eq!(
        custom(&[b"one: a\ntwo: b\ndata: c\n\n"]),
        vec![Ok(event("two", "bc", "", None))]
    );
    // A field without a value leaves no data, so nothing is dispatched.
    assert_eq!(custom(&[b"field\n\nfield:\n\n"]), vec![]);
    assert_eq!(
        custom(&[b"Data: x\n\n data: y\n\n"]),
        vec![Ok(event("Data", "x", "", None)), Ok(event(" data", "y", "", None))]
    );
    // Known fields are read by the standard rules.
    assert_eq!(
        custom(&[b"event: e\ndata: a\ndata: b\nid: i\nretry: x\n:c\n\n"]),
        vec![Ok(event("e", "a\nb", "i", None))]
    );
}

#[test]
fn custom_builder_of_the_library_agrees_with_the_handwritten_one() {
    let body = "
data: {\"my\": \"data\"}

custom_field: custom_data

data: {\"my\": \"data2\"}

different_field: different_data

";
    let bytes = body.as_bytes();
    let handwritten = run(chunks_of(&[bytes]).eventsource(CustomEventBuilder::default()));
    assert_eq!(handwritten.len(), 4);
    for size in 1..10 {
        let parts: Vec<&[u8]> = bytes.chunks(size).collect();
        let seen = run(
            chunks_of(&parts).eventsource(eventsource_stream::CustomEventBuilder::default()),
        );
        assert_eq!(seen, handwritten, "chunks of {}", size);
    }
}

#[test]
fn standard_strategy_ignores_unknown_field() {
    let seen = standard(&[b"customfield: v\n\n"]);
    assert_eq!(seen, vec![]);
    let seen = standard(&[b"customfield: v\ndata: x\nDATA: y\n data: z\n\n"]);
    assert_eq!(seen, vec![Ok(event("message", "x", "", None))]);
}

#[test]
fn crlf_cut_between_chunks_is_one_terminator() {
    let whole = standard(&[b"data: a\r\ndata: b\r\n\r\n"]);
    let cut = standard(&[b"data: a\r", b"\ndata: b\r", b"\n\r", b"\n"]);
    assert_eq!(whole, vec![Ok(event("message", "a\nb", "", None))]);
    assert_eq!(cut, whole);
}

#[test]
fn cr_then_lf_in_separate_lines_when_cr_is_alone() {
    // CR, CR LF: two terminators, so the second line is empty and closes the cycle.
    let seen = standard(&[b"data: a\r", b"\r\n"]);
    assert_eq!(seen, vec![Ok(event("message", "a", "", None))]);
}

#[test]
fn character_cut_between_chunks_is_read_whole() {
    let text = "data: h\u{e9}llo \u{20ac} \u{1f600}\n\n";
    let bytes = text.as_bytes();
    let whole = standard(&[bytes]);
    assert_eq!(whole, vec![Ok(event("message", "h\u{e9}llo \u{20ac} \u{1f600}", "", None))]);
    for cut in 0..=bytes.len() {
        let seen = standard(&[&bytes[..cut], &bytes[cut..]]);
        assert_eq!(seen, whole, "cut at {}", cut);
    }
}

#[test]
fn half_a_character_is_no_error_while_the_source_is_live() {
    let mut driver = Driver::new(SpecCompliantEventBuilder::default());
    driver.feed(b"data: \xe2\x82");
    assert_eq!(driver.next_step(), Step::Pull);
    assert_eq!(driver.state(), StreamState::Buffering);
    driver.feed(b"\xac\n\n");
    assert_eq!(driver.next_step(), Step::Event(event("message", "\u{20ac}", "", None)));
    assert_eq!(driver.next_step(), Step::Pull);
}

#[test]
fn every_chunking_gives_the_same_events() {
    let body = "\u{feff}: hello\r\nid: 1\ndata: a\u{e9}\rdata: b\r\n\r\nevent: e\ndata\n\nretry: 5\r\rdata: last\n\r\ndata: lost";
    let bytes = body.as_bytes();
    let whole = standard(&[bytes]);
    assert_eq!(
        whole,
        vec![
            Ok(event("message", "a\u{e9}\nb", "1", None)),
            Ok(event("e", "", "1", None)),
            Ok(event("message", "last", "1", None)),
        ]
    );
    let single: Vec<&[u8]> = bytes.chunks(1).collect();
    assert_eq!(standard(&single), whole);
    for size in 2..8 {
        let parts: Vec<&[u8]> = bytes.chunks(size).collect();
        assert_eq!(standard(&parts), whole, "chunks of {}", size);
    }
    for cut in 0..=bytes.len() {
        assert_eq!(standard(&[&bytes[..cut], &bytes[cut..]]), whole, "cut at {}", cut);
        assert_eq!(standard(&[&bytes[..cut], b"", &bytes[cut..]]), whole);
    }
}

#[test]
fn read_to_end_is_what_the_steps_give() {
    let body = b"id: 9\ndata: a\n\ndata: b\r\n\r\ndata: c";
    let received = read_to_end(SpecCompliantEventBuilder::default(), &[&body[..5], &body[5..]]);
    assert_eq!(
        received,
        Received {
            events: vec![event("message", "a", "9", None), event("message", "b", "9", None)],
            invalid: false,
        }
    );
    let received = read_to_end(SpecCompliantEventBuilder::default(), &[]);
    assert_eq!(received, Received { events: vec![], invalid: false });
    let received = read_to_end(
        SpecCompliantEventBuilder::default(),
        &[b"data: a\n\nda", b"ta: \xff\n\ndata: c\n\n"],
    );
    assert_eq!(received, Received { events: vec![event("message", "a", "", None)], invalid: true });
}

#[test]
fn dispatch_without_data_yields_nothing_and_keeps_id() {
    let mut builder = SpecCompliantEventBuilder::default();
    builder.add(RawEventLine::Field("id", Some("A")));
    builder.add(RawEventLine::Field("event", Some("e")));
    builder.add(RawEventLine::Field("retry", Some("3")));
    builder.add(RawEventLine::Empty);
    assert!(builder.is_complete());
    assert_eq!(builder.dispatch(), None);
    assert!(!builder.is_complete());
    builder.add(RawEventLine::Field("data", Some("x")));
    builder.add(RawEventLine::Empty);
    assert_eq!(builder.dispatch(), Some(event("message", "x", "A", None)));
    assert_eq!(builder.dispatch(), None);
    builder.add(RawEventLine::Field("data", None));
    assert_eq!(builder.dispatch(), Some(event("message", "", "A", None)));
}

#[test]
fn builder_follows_the_field_rules() {
    let mut builder = SpecCompliantEventBuilder::default();
    assert!(!builder.is_complete());
    builder.add(RawEventLine::Comment("data: no"));
    builder.add(RawEventLine::Field("event", Some("first")));
    builder.add(RawEventLine::Field("event", Some("second")));
    builder.add(RawEventLine::Field("data", Some("a")));
    builder.add(RawEventLine::Field("data", None));
    builder.add(RawEventLine::Field("data", Some("b\n")));
    builder.add(RawEventLine::Field("id", Some("good")));
    builder.add(RawEventLine::Field("id", Some("b\0ad")));
    builder.add(RawEventLine::Field("retry", Some("12")));
    builder.add(RawEventLine::Field("retry", Some("x")));
    builder.add(RawEventLine::Field("Event", Some("no")));
    builder.add(RawEventLine::Field("", Some("no")));
    assert!(!builder.is_complete());
    builder.add(RawEventLine::Empty);
    assert!(builder.is_complete());
    assert_eq!(builder.dispatch(), Some(event("second", "a\n\nb\n", "good", Some(12))));
}

#[test]
fn empty_event_type_reads_message() {
    let seen = standard(&[b"event: x\nevent:\ndata: d\n\n"]);
    assert_eq!(seen, vec![Ok(event("message", "d", "", None))]);
}

#[test]
fn only_one_line_feed_is_taken_off_the_data() {
    let seen = standard(&[b"data\ndata\n\n"]);
    assert_eq!(seen, vec![Ok(event("message", "\n", "", None))]);
    let seen = standard(&[b"data:\n\n"]);
    assert_eq!(seen, vec![Ok(event("message", "", "", None))]);
}

#[test]
fn one_space_after_the_colon_is_dropped() {
    let seen = standard(&[b"data:  two\ndata:none\ndata: \ndata:a: b\n\n"]);
    assert_eq!(seen, vec![Ok(event("message", " two\nnone\n\na: b", "", None))]);
}

#[test]
fn blank_lines_and_comments_between_events_give_nothing() {
    assert_eq!(standard(&[b"\n\n\r\n\r: c\n\n"]), vec![]);
    assert_eq!(standard(&[b""]), vec![]);
    assert_eq!(standard(&[]), vec![]);
    assert_eq!(standard(&[b" \ndata: x\n \n"]), vec![]);
}

#[test]
fn byte_order_mark_is_dropped_from_the_first_line_only() {
    let seen = standard(&[b"\xef\xbb\xbfdata: x\n\n"]);
    assert_eq!(seen, vec![Ok(event("message", "x", "", None))]);
    let seen = standard(&[b"\xef", b"\xbb", b"\xbfdata: x\n\n"]);
    assert_eq!(seen, vec![Ok(event("message", "x", "", None))]);
    let seen = standard(&[b"\n\xef\xbb\xbfdata: x\n\ndata: y\n\n"]);
    assert_eq!(seen, vec![Ok(event("message", "y", "", None))]);
    let seen = standard(&[b"\xef\xbb\xbf\xef\xbb\xbfdata: x\n\ndata: y\n\n"]);
    assert_eq!(seen, vec![Ok(event("message", "y", "", None))]);
}

#[test]
fn last_line_without_terminator_is_read_at_the_end() {
    // The line is read, but no blank line follows it: its cycle is never dispatched.
    assert_eq!(standard(&[b"data: x"]), vec![]);
    assert_eq!(standard(&[b"data: x\n"]), vec![]);
    // A carriage return at the very end ends a line of its own once the source is
    // exhausted: here a blank line, which closes the cycle.
    assert_eq!(standard(&[b"data: x\n\r"]), vec![Ok(event("message", "x", "", None))]);
    assert_eq!(standard(&[b"data: x\r\r"]), vec![Ok(event("message", "x", "", None))]);
    assert_eq!(standard(&[b"data: x\r"]), vec![]);
}

#[test]
fn carriage_return_at_the_end_waits_for_the_next_chunk() {
    let mut driver = Driver::new(SpecCompliantEventBuilder::default());
    driver.feed(b"data: x\n\r");
    assert_eq!(driver.next_step(), Step::Pull);
    driver.feed(b"data: y\n");
    assert_eq!(driver.next_step(), Step::Event(event("message", "x", "", None)));
    assert_eq!(driver.next_step(), Step::Pull);
    driver.finish();
    assert_eq!(driver.next_step(), Step::Done);
}

#[test]
fn ill_formed_text_ends_the_stream_with_an_error() {
    let seen = standard(&[b"data: a\n\ndata: \xff\n\ndata: b\n\n"]);
    assert_eq!(seen, vec![Ok(event("message", "a", "", None)), Err(EventStreamError::Utf8)]);
    // A character that the end of the source cuts short.
    let seen = standard(&[b"data: a\n\ndata: \xe2\x82"]);
    assert_eq!(seen, vec![Ok(event("message", "a", "", None)), Err(EventStreamError::Utf8)]);
    // Also in a comment.
    let seen = standard(&[b": \xc0\x80\ndata: a\n\n"]);
    assert_eq!(seen, vec![Err(EventStreamError::Utf8)]);
}

#[test]
fn ill_formed_text_is_found_however_the_stream_is_cut() {
    let bytes = b"data: a\n\ndata: \xf0\x9f\x98\ndata: b\n\n";
    let whole = standard(&[bytes]);
    assert_eq!(whole, vec![Ok(event("message", "a", "", None)), Err(EventStreamError::Utf8)]);
    for cut in 0..=bytes.len() {
        assert_eq!(standard(&[&bytes[..cut], &bytes[cut..]]), whole, "cut at {}", cut);
    }
}

#[test]
fn source_failure_is_reported_once_and_ends_the_stream() {
    let mut driver = Driver::new(SpecCompliantEventBuilder::default());
    driver.feed(b"data: a\n\ndata: b\n");
    assert_eq!(driver.next_step(), Step::Event(event("message", "a", "", None)));
    assert_eq!(driver.next_step(), Step::Pull);
    assert_eq!(driver.fail("reset"), EventStreamError::Transport("reset"));
    assert_eq!(driver.state(), StreamState::Errored);
    assert_eq!(driver.next_step(), Step::Done);
    driver.feed(b"\ndata: c\n\n");
    driver.finish();
    assert_eq!(driver.next_step(), Step::Done);
    assert_eq!(driver.state(), StreamState::Errored);
}

#[test]
fn driver_states_follow_the_source() {
    let mut driver = Driver::new(SpecCompliantEventBuilder::default());
    assert_eq!(driver.state(), StreamState::Buffering);
    assert_eq!(driver.next_step(), Step::Pull);
    assert_eq!(driver.state(), StreamState::Buffering);
    driver.feed(b"data: a\n\ndata: b\n\ndata: c");
    assert_eq!(driver.state(), StreamState::Draining);
    assert_eq!(driver.next_step(), Step::Event(event("message", "a", "", None)));
    assert_eq!(driver.state(), StreamState::Draining);
    assert_eq!(driver.next_step(), Step::Event(event("message", "b", "", None)));
    assert_eq!(driver.state(), StreamState::Draining);
    assert_eq!(driver.next_step(), Step::Pull);
    assert_eq!(driver.state(), StreamState::Buffering);
    assert!(!driver.is_over());
    driver.finish();
    assert_eq!(driver.state(), StreamState::Draining);
    driver.feed(b"\n\n");
    assert_eq!(driver.next_step(), Step::Done);
    assert_eq!(driver.state(), StreamState::Closed);
    assert!(driver.is_over());
    assert_eq!(driver.next_step(), Step::Done);
    assert_eq!(driver.fail(7), EventStreamError::Transport(7));
    assert_eq!(driver.state(), StreamState::Closed);
}

#[test]
fn events_at_hand_come_before_the_next_pull() {
    let mut driver = Driver::new(SpecCompliantEventBuilder::default());
    driver.feed(b"data: a\n\ndata: b\n\nda");
    driver.feed(b"ta: c\n\n");
    assert_eq!(driver.next_step(), Step::Event(event("message", "a", "", None)));
    driver.feed(b"data: d\n\n");
    assert_eq!(driver.next_step(), Step::Event(event("message", "b", "", None)));
    assert_eq!(driver.next_step(), Step::Event(event("message", "c", "", None)));
    driver.finish();
    assert_eq!(driver.next_step(), Step::Event(event("message", "d", "", None)));
    assert_eq!(driver.next_step(), Step::Done);
}

#[test]
fn entry_points_keep_the_source() {
    let stream = vec![1u8, 2, 3].spec_compliant_eventsource();
    assert_eq!(stream.source, vec![1u8, 2, 3]);
    assert_eq!(stream.driver.state(), StreamState::Buffering);
    let stream = "source".eventsource(CustomEventBuilder::default());
    assert_eq!(stream.source, "source");
    let mut stream = EventStream::new((), SpecCompliantEventBuilder::default());
    assert_eq!(stream.driver.next_step(), Step::Pull);
}

#[test]
fn steps_turn_into_what_the_consumer_receives() {
    let item = Step::Event(event("e", "d", "i", Some(1))).into_item::<u8>();
    assert_eq!(item, Some(Ok(event("e", "d", "i", Some(1)))));
    assert_eq!(Step::Invalid.into_item::<u8>(), Some(Err(EventStreamError::Utf8)));
    assert_eq!(Step::Pull.into_item::<u8>(), None);
    assert_eq!(Step::Done.into_item::<u8>(), None);
}

#[test]
fn events_can_be_copied_and_start_empty() {
    let blank = Event::default();
    assert_eq!(blank, event("", "", "", None));
    let full = event("e", "d", "i", Some(1));
    assert_eq!(full.clone(), full);
    assert_ne!(full, blank);
}
