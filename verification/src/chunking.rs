//! Chunking: what a stream emits does not depend on where its bytes were cut.
//!
//! The source delivers the stream in chunks of its own choosing. This module says
//! what a consumer receives from a given run of chunks ([`transcript`]), and what the
//! bytes of a stream mean when they are all at hand ([`stream_outcomes`]), and proves
//! that the two are the same.

use crate::builder::{Cycle, EventBuilder};
use crate::event::Event;
use crate::event_stream::{
    advance, lemma_advance_shrinks, step, Driver, Outcome, Step, StepView, StreamView,
};
use crate::line::{
    first_break, first_cut, is_break, is_first, lemma_cut_bounds, lemma_first_of, without_bom, CR,
    LF,
};
use crate::raw_line::classify;
use vstd::prelude::*;
use vstd::utf8::*;

verus! {

/// Everything that a driver in state `v` emits from the bytes at hand, and the state
/// in which it then waits for the source, or is over.
pub open spec fn drain<B: EventBuilder>(v: StreamView) -> (StreamView, Seq<Outcome>)
    decreases v.lines.pending.len(),
    via drain_decreases::<B>
{
    match advance::<B>(v) {
        None => (v.settled(), Seq::empty()),
        Some((next, out)) => {
            let (last, outs) = drain::<B>(next);
            (
                last,
                match out {
                    Some(o) => seq![o] + outs,
                    None => outs,
                },
            )
        },
    }
}

#[via_fn]
proof fn drain_decreases<B: EventBuilder>(v: StreamView) {
    lemma_advance_shrinks::<B>(v);
}

/// What a consumer receives from a driver in state `v` whose source delivers `chunks`
/// one by one and is then exhausted: after every delivery the driver is asked for
/// steps until it has to pull again.
pub open spec fn transcript<B: EventBuilder>(v: StreamView, chunks: Seq<Seq<u8>>) -> Seq<Outcome>
    decreases chunks.len(),
{
    let (waiting, outs) = drain::<B>(v);
    if chunks.len() == 0 {
        outs + drain::<B>(waiting.finished()).1
    } else {
        outs + transcript::<B>(waiting.fed(chunks.first()), chunks.drop_first())
    }
}

/// `drain` is what a run of steps emits: a step that emits is followed by the steps
/// of the state it leaves, and a step that emits nothing ends the run.
pub proof fn lemma_drain_by_steps<B: EventBuilder>(v: StreamView)
    ensures
        match step::<B>(v) {
            (next, StepView::Event(event)) => drain::<B>(v) == (
                drain::<B>(next).0,
                seq![Outcome::Event(event)] + drain::<B>(next).1,
            ),
            (next, StepView::Invalid) => drain::<B>(v) == (
                drain::<B>(next).0,
                seq![Outcome::Invalid] + drain::<B>(next).1,
            ),
            (next, _) => drain::<B>(v) == (next, Seq::<Outcome>::empty()),
        },
    decreases v.lines.pending.len(),
{
    lemma_advance_shrinks::<B>(v);
    match advance::<B>(v) {
        Some((next, None)) => {
            lemma_drain_by_steps::<B>(next);
        },
        _ => {},
    }
}

/// A line that is held in full stays the first line whatever follows it.
pub proof fn lemma_cut_extends(bytes: Seq<u8>, more: Seq<u8>, at_end: bool)
    requires
        first_cut(bytes, false) is Some,
    ensures
        first_cut(bytes + more, at_end) == first_cut(bytes, false),
{
    let stop = |b: u8| is_break(b);
    lemma_first_of(bytes, stop);
    lemma_first_of(bytes + more, stop);
    let e = first_break(bytes);
    assert(is_first(bytes + more, stop, e)) by {
        assert((bytes + more)[e] == bytes[e]);
        assert forall|j: int| 0 <= j < e implies !stop(#[trigger] (bytes + more)[j]) by {
            assert((bytes + more)[j] == bytes[j]);
        }
    }
    if bytes[e] == CR {
        assert((bytes + more)[e + 1] == bytes[e + 1]);
    }
}

/// A driver that can read a line reads the same line, to the same effect, when more
/// bytes have been delivered first.
pub proof fn lemma_advance_fed<B: EventBuilder>(v: StreamView, chunk: Seq<u8>)
    requires
        advance::<B>(v) is Some,
    ensures
        advance::<B>(v.fed(chunk)) == Some(
            (advance::<B>(v)->Some_0.0.fed(chunk), advance::<B>(v)->Some_0.1),
        ),
{
    if v.is_live() {
        let p = v.lines.pending;
        lemma_cut_extends(p, chunk, false);
        lemma_first_of(p, |b: u8| is_break(b));
        let cut = first_cut(p, false)->Some_0;
        assert((p + chunk).subrange(0, cut.end) =~= p.subrange(0, cut.end));
        assert((p + chunk).subrange(cut.next, (p + chunk).len() as int) =~= p.subrange(
            cut.next,
            p.len() as int,
        ) + chunk);
    }
}

/// Once drained, a driver has nothing more to emit until the source speaks.
pub proof fn lemma_drain_rests<B: EventBuilder>(v: StreamView)
    ensures
        drain::<B>(drain::<B>(v).0) == (drain::<B>(v).0, Seq::<Outcome>::empty()),
    decreases v.lines.pending.len(),
{
    lemma_advance_shrinks::<B>(v);
    match advance::<B>(v) {
        Some((next, _)) => {
            lemma_drain_rests::<B>(next);
        },
        None => {
            assert(advance::<B>(v.settled()) is None);
        },
    }
}

/// Delivering a chunk before the driver has drained what it holds, or after, comes to
/// the same: the same outcomes in the same order, and the same state at the end.
pub proof fn lemma_drain_fed<B: EventBuilder>(v: StreamView, chunk: Seq<u8>)
    ensures
        drain::<B>(v.fed(chunk)) == (
            drain::<B>(drain::<B>(v).0.fed(chunk)).0,
            drain::<B>(v).1 + drain::<B>(drain::<B>(v).0.fed(chunk)).1,
        ),
    decreases v.lines.pending.len(),
{
    lemma_advance_shrinks::<B>(v);
    let (waiting, outs) = drain::<B>(v);
    let later = drain::<B>(waiting.fed(chunk));
    match advance::<B>(v) {
        Some((next, out)) => {
            lemma_advance_fed::<B>(v, chunk);
            lemma_drain_fed::<B>(next, chunk);
            let rest = drain::<B>(next).1;
            match out {
                Some(o) => {
                    assert(seq![o] + (rest + later.1) =~= (seq![o] + rest) + later.1);
                },
                None => {},
            }
        },
        None => {
            if v.is_live() {
                assert(waiting.fed(chunk) == v.fed(chunk));
                assert(Seq::<Outcome>::empty() + later.1 =~= later.1);
            } else {
                lemma_drain_rests::<B>(v);
                assert(outs + later.1 =~= outs);
            }
        },
    }
}

/// However the source cuts a stream into chunks, the consumer receives what it would
/// receive if the whole stream came as a single chunk: the same events, in the same
/// order, and the same failure at the same place if a line is not well-formed UTF-8.
pub proof fn lemma_chunking_is_immaterial<B: EventBuilder>(v: StreamView, chunks: Seq<Seq<u8>>)
    ensures
        transcript::<B>(v, chunks) == transcript::<B>(v, seq![chunks.flatten()]),
    decreases chunks.len(),
{
    let (waiting, outs) = drain::<B>(v);
    let whole = chunks.flatten();
    let single = seq![whole];
    assert(single.first() == whole);
    assert(single.drop_first() =~= Seq::<Seq<u8>>::empty());
    // What the single chunk gives.
    let fed_whole = waiting.fed(whole);
    let d_whole = drain::<B>(fed_whole);
    assert(transcript::<B>(v, single) == outs + (d_whole.1 + drain::<B>(
        d_whole.0.finished(),
    ).1)) by {
        assert(transcript::<B>(fed_whole, Seq::<Seq<u8>>::empty()) == d_whole.1 + drain::<B>(
            d_whole.0.finished(),
        ).1);
    }
    if chunks.len() == 0 {
        assert(whole =~= Seq::<u8>::empty());
        assert(waiting.lines.pending + whole =~= waiting.lines.pending);
        lemma_drain_rests::<B>(v);
        assert(advance::<B>(fed_whole) == advance::<B>(waiting));
        assert(d_whole == (waiting, Seq::<Outcome>::empty()));
        assert(Seq::<Outcome>::empty() + drain::<B>(waiting.finished()).1 =~= drain::<B>(
            waiting.finished(),
        ).1);
    } else {
        let head = chunks.first();
        let tail = chunks.drop_first();
        let rest = tail.flatten();
        assert(whole == head + rest);
        let fed_head = waiting.fed(head);
        lemma_chunking_is_immaterial::<B>(fed_head, tail);
        // The tail as a single chunk, after the head was drained.
        let d_head = drain::<B>(fed_head);
        let fed_rest = d_head.0.fed(rest);
        let d_rest = drain::<B>(fed_rest);
        let one = seq![rest];
        assert(one.first() == rest);
        assert(one.drop_first() =~= Seq::<Seq<u8>>::empty());
        assert(transcript::<B>(fed_head, one) == d_head.1 + (d_rest.1 + drain::<B>(
            d_rest.0.finished(),
        ).1)) by {
            assert(transcript::<B>(fed_rest, Seq::<Seq<u8>>::empty()) == d_rest.1 + drain::<B>(
                d_rest.0.finished(),
            ).1);
        }
        // The head and the tail as a single chunk.
        assert(fed_head.fed(rest) == fed_whole) by {
            assert((waiting.lines.pending + head) + rest =~= waiting.lines.pending + (head
                + rest));
        }
        lemma_drain_fed::<B>(fed_head, rest);
        assert(d_whole == (d_rest.0, d_head.1 + d_rest.1));
        let end = drain::<B>(d_rest.0.finished()).1;
        assert(d_head.1 + (d_rest.1 + end) =~= (d_head.1 + d_rest.1) + end);
    }
}

/// Two ways of cutting the same bytes into chunks give the consumer the same.
pub proof fn lemma_same_bytes_same_transcript<B: EventBuilder>(
    v: StreamView,
    one: Seq<Seq<u8>>,
    other: Seq<Seq<u8>>,
)
    requires
        one.flatten() == other.flatten(),
    ensures
        transcript::<B>(v, one) == transcript::<B>(v, other),
{
    lemma_chunking_is_immaterial::<B>(v, one);
    lemma_chunking_is_immaterial::<B>(v, other);
}

/// A stream cut in two at any place gives what the uncut stream gives.
pub proof fn lemma_cut_anywhere<B: EventBuilder>(v: StreamView, head: Seq<u8>, tail: Seq<u8>)
    ensures
        transcript::<B>(v, seq![head, tail]) == transcript::<B>(v, seq![head + tail]),
{
    let chunks = seq![head, tail];
    lemma_chunking_is_immaterial::<B>(v, chunks);
    assert(chunks.flatten() =~= head + tail) by {
        assert(chunks.first() == head);
        assert(chunks.drop_first() =~= seq![tail]);
        assert(seq![tail].first() == tail);
        assert(seq![tail].drop_first() =~= Seq::<Seq<u8>>::empty());
        assert(seq![tail].flatten() =~= tail + Seq::<Seq<u8>>::empty().flatten());
    }
}

/// A carriage return and the line feed after it end one line, whether one chunk
/// holds them both or the carriage return ends one chunk and the line feed begins
/// the next.
pub proof fn lemma_crlf_cut_apart<B: EventBuilder>(v: StreamView, before: Seq<u8>, after: Seq<u8>)
    ensures
        transcript::<B>(v, seq![before.push(CR), seq![LF] + after]) == transcript::<B>(
            v,
            seq![before + seq![CR, LF] + after],
        ),
{
    lemma_cut_anywhere::<B>(v, before.push(CR), seq![LF] + after);
    assert(before.push(CR) + (seq![LF] + after) =~= before + seq![CR, LF] + after);
}

/// While the source is live, bytes that no line break follows are left alone: the
/// driver emits nothing and asks for more. So a character whose bytes have not all
/// arrived is never taken for ill-formed text.
pub proof fn lemma_unfinished_line_waits<B: EventBuilder>(v: StreamView)
    requires
        v.is_live(),
        forall|i: int| 0 <= i < v.lines.pending.len() ==> !is_break(#[trigger] v.lines.pending[i]),
    ensures
        step::<B>(v) == (v.settled(), StepView::Pull),
        drain::<B>(v) == (v.settled(), Seq::<Outcome>::empty()),
        v.settled().lines == v.lines,
        v.settled().state is Buffering,
{
    let stop = |b: u8| is_break(b);
    lemma_first_of(v.lines.pending, stop);
    assert(is_first(v.lines.pending, stop, v.lines.pending.len() as int));
}

/// The lines of a stream that is at hand in full, each without its terminator. What
/// follows the last terminator is a line too, unless it is empty.
pub open spec fn lines_of(stream: Seq<u8>) -> Seq<Seq<u8>>
    decreases stream.len(),
    via lines_of_decreases
{
    match first_cut(stream, true) {
        None => Seq::empty(),
        Some(cut) => seq![stream.subrange(0, cut.end)] + lines_of(
            stream.subrange(cut.next, stream.len() as int),
        ),
    }
}

#[via_fn]
proof fn lines_of_decreases(stream: Seq<u8>) {
    lemma_cut_bounds(stream, true);
}

/// What `lines` make a consumer receive, read in turn by a builder whose cycle is
/// `cycle`. With `first` set, the first of them is the first line of its stream, and
/// is read without the byte-order mark that it may begin with.
///
/// A line that closes a cycle makes the builder dispatch, and the event, if one comes
/// of it, is received. A line that is not well-formed UTF-8 is reported, and nothing
/// is received after it.
pub open spec fn emitted_by<B: EventBuilder>(
    cycle: Cycle,
    lines: Seq<Seq<u8>>,
    first: bool,
) -> Seq<Outcome>
    decreases lines.len(),
{
    if lines.len() == 0 {
        Seq::empty()
    } else {
        let line = if first {
            without_bom(lines.first())
        } else {
            lines.first()
        };
        if !valid_utf8(line) {
            seq![Outcome::Invalid]
        } else {
            let added = B::added(cycle, classify(line));
            if added.complete {
                let later = emitted_by::<B>(B::reset(added), lines.drop_first(), false);
                match B::dispatched(added) {
                    Some(event) => seq![Outcome::Event(event)] + later,
                    None => later,
                }
            } else {
                emitted_by::<B>(added, lines.drop_first(), false)
            }
        }
    }
}

/// What a consumer receives from a stream whose bytes are `stream`, read from its
/// beginning to its end by a builder whose cycle is `cycle` at the outset.
pub open spec fn stream_outcomes<B: EventBuilder>(cycle: Cycle, stream: Seq<u8>) -> Seq<Outcome> {
    emitted_by::<B>(cycle, lines_of(stream), true)
}

/// Reporting the end of the source before the driver has drained what it holds, or
/// after, comes to the same.
pub proof fn lemma_drain_finished<B: EventBuilder>(v: StreamView)
    ensures
        drain::<B>(v.finished()) == (
            drain::<B>(drain::<B>(v).0.finished()).0,
            drain::<B>(v).1 + drain::<B>(drain::<B>(v).0.finished()).1,
        ),
    decreases v.lines.pending.len(),
{
    lemma_advance_shrinks::<B>(v);
    let (waiting, outs) = drain::<B>(v);
    let later = drain::<B>(waiting.finished());
    match advance::<B>(v) {
        Some((next, out)) => {
            if !v.exhausted {
                let p = v.lines.pending;
                lemma_cut_extends(p, Seq::empty(), true);
                assert(p + Seq::<u8>::empty() =~= p);
            }
            assert(advance::<B>(v.finished()) == Some((next.finished(), out)));
            lemma_drain_finished::<B>(next);
            let rest = drain::<B>(next).1;
            match out {
                Some(o) => {
                    assert(seq![o] + (rest + later.1) =~= (seq![o] + rest) + later.1);
                },
                None => {},
            }
        },
        None => {
            if v.is_over() {
                lemma_drain_rests::<B>(v);
                assert(advance::<B>(v.finished()) is None);
                assert(outs + later.1 =~= outs);
            } else if v.exhausted {
                assert(advance::<B>(v.finished()) is None);
                assert(advance::<B>(waiting.finished()) is None);
                assert(outs + later.1 =~= outs);
            } else {
                assert(waiting.finished() == v.finished());
                assert(Seq::<Outcome>::empty() + later.1 =~= later.1);
            }
        },
    }
}

/// Once the source is exhausted, a driver emits what the lines of the bytes at hand
/// make of the cycle in progress.
pub proof fn lemma_drain_exhausted<B: EventBuilder>(v: StreamView)
    requires
        v.exhausted,
        !v.is_over(),
    ensures
        drain::<B>(v).1 == emitted_by::<B>(v.cycle, lines_of(v.lines.pending), v.lines.fresh),
    decreases v.lines.pending.len(),
{
    lemma_advance_shrinks::<B>(v);
    lemma_cut_bounds(v.lines.pending, true);
    let pending = v.lines.pending;
    let lines = lines_of(pending);
    match advance::<B>(v) {
        Some((next, out)) => {
            let cut = first_cut(pending, true)->Some_0;
            let raw = pending.subrange(0, cut.end);
            let rest = pending.subrange(cut.next, pending.len() as int);
            let line = if v.lines.fresh {
                without_bom(raw)
            } else {
                raw
            };
            assert(lines == seq![raw] + lines_of(rest));
            assert(lines.first() == raw);
            assert(lines.drop_first() =~= lines_of(rest));
            if !valid_utf8(line) {
                assert(out == Some(Outcome::Invalid));
                assert(advance::<B>(next) is None);
                assert(drain::<B>(next).1 == Seq::<Outcome>::empty());
                assert(seq![Outcome::Invalid] + Seq::<Outcome>::empty() =~= seq![
                    Outcome::Invalid,
                ]);
            } else {
                assert(next.lines.pending == rest);
                lemma_drain_exhausted::<B>(next);
            }
        },
        None => {
            assert(lines =~= Seq::<Seq<u8>>::empty());
        },
    }
}

/// What a consumer receives from a fresh driver is what the bytes of the stream make
/// of the builder's cycle, line by line, wherever the source cut them into chunks.
pub proof fn lemma_transcript_is_stream_outcomes<B: EventBuilder>(
    cycle: Cycle,
    chunks: Seq<Seq<u8>>,
)
    ensures
        transcript::<B>(StreamView::start(cycle), chunks) == stream_outcomes::<B>(
            cycle,
            chunks.flatten(),
        ),
{
    let v = StreamView::start(cycle);
    let stream = chunks.flatten();
    let single = seq![stream];
    lemma_chunking_is_immaterial::<B>(v, chunks);
    assert(single.flatten() =~= stream) by {
        assert(single.first() == stream);
        assert(single.drop_first() =~= Seq::<Seq<u8>>::empty());
        assert(single.flatten() =~= stream + Seq::<Seq<u8>>::empty().flatten());
    }
    lemma_chunking_is_immaterial::<B>(v, single);
    // A fresh driver holds nothing to drain.
    assert(drain::<B>(v) == (v, Seq::<Outcome>::empty())) by {
        let stop = |b: u8| is_break(b);
        lemma_first_of(v.lines.pending, stop);
        assert(advance::<B>(v) is None);
    }
    let fed = v.fed(stream);
    assert(fed.lines.pending =~= stream);
    assert(single.first() == stream);
    assert(single.drop_first() =~= Seq::<Seq<u8>>::empty());
    let drained = drain::<B>(fed);
    let last = drain::<B>(drained.0.finished());
    assert(transcript::<B>(v, single) == Seq::<Outcome>::empty() + (drained.1 + last.1)) by {
        assert(transcript::<B>(fed, Seq::<Seq<u8>>::empty()) == drained.1 + last.1);
    }
    assert(Seq::<Outcome>::empty() + (drained.1 + last.1) =~= drained.1 + last.1);
    lemma_drain_finished::<B>(fed);
    lemma_drain_exhausted::<B>(fed.finished());
}

/// A step that emits leaves fewer bytes at hand; one that reports ill-formed text
/// leaves the stream in error; and a stream that is over only says so.
pub proof fn lemma_emitting_step_shrinks<B: EventBuilder>(v: StreamView)
    ensures
        step::<B>(v).1 is Event || step::<B>(v).1 is Invalid ==> step::<B>(v).0.lines.pending.len()
            < v.lines.pending.len(),
        step::<B>(v).1 is Invalid ==> step::<B>(v).0.state is Errored,
        v.is_over() ==> step::<B>(v) == (v, StepView::Done),
    decreases v.lines.pending.len(),
{
    lemma_advance_shrinks::<B>(v);
    match advance::<B>(v) {
        Some((next, None)) => {
            lemma_emitting_step_shrinks::<B>(next);
        },
        _ => {},
    }
}

/// What came of reading a stream to its end.
#[derive(Debug, PartialEq, Eq)]
pub struct Received {
    /// The events of the stream, in the order of the blank lines that closed them.
    pub events: Vec<Event>,
    /// Whether the stream broke off, after these events, at a line that was not
    /// well-formed UTF-8.
    pub invalid: bool,
}

/// The outcomes that a consumer has received when it holds `events` and knows
/// whether the stream broke off.
pub open spec fn outcomes(events: Seq<Event>, invalid: bool) -> Seq<Outcome> {
    events.map_values(|e: Event| Outcome::Event(e@)) + if invalid {
        seq![Outcome::Invalid]
    } else {
        Seq::empty()
    }
}

impl View for Received {
    type V = Seq<Outcome>;

    open spec fn view(&self) -> Seq<Outcome> {
        outcomes(self.events@, self.invalid)
    }
}

/// Takes steps until the driver has to pull or is over, and keeps what they emit.
fn take_steps<B: EventBuilder>(driver: &mut Driver<B>, events: &mut Vec<Event>, invalid: &mut bool)
    requires
        *old(invalid) ==> old(driver)@.state is Errored,
    ensures
        *final(invalid) ==> final(driver)@.state is Errored,
        final(driver)@ == drain::<B>(old(driver)@).0,
        outcomes(final(events)@, *final(invalid)) == outcomes(old(events)@, *old(invalid))
            + drain::<B>(old(driver)@).1,
{
    let ghost goal = outcomes(events@, *invalid) + drain::<B>(driver@).1;
    loop
        invariant_except_break
            drain::<B>(driver@).0 == drain::<B>(old(driver)@).0,
            outcomes(events@, *invalid) + drain::<B>(driver@).1 == goal,
        invariant
            *invalid ==> driver@.state is Errored,
        ensures
            *invalid ==> driver@.state is Errored,
            driver@ == drain::<B>(old(driver)@).0,
            outcomes(events@, *invalid) == goal,
        decreases driver@.lines.pending.len(),
    {
        let ghost before = driver@;
        let ghost held = outcomes(events@, *invalid);
        proof {
            lemma_drain_by_steps::<B>(before);
            lemma_emitting_step_shrinks::<B>(before);
        }
        match driver.next_step() {
            Step::Event(event) => {
                let ghost out = Outcome::Event(event@);
                events.push(event);
                proof {
                    assert(outcomes(events@, *invalid) =~= held + seq![out]);
                    assert((held + seq![out]) + drain::<B>(driver@).1 =~= held + (seq![out]
                        + drain::<B>(driver@).1));
                }
            },
            Step::Invalid => {
                *invalid = true;
                proof {
                    assert(outcomes(events@, *invalid) =~= held + seq![Outcome::Invalid]);
                    assert((held + seq![Outcome::Invalid]) + drain::<B>(driver@).1 =~= held + (
                    seq![Outcome::Invalid] + drain::<B>(driver@).1));
                }
            },
            _ => {
                proof {
                    assert(held + Seq::<Outcome>::empty() =~= held);
                }
                break ;
            },
        }
    }
}

/// Reads a stream that is at hand in full, delivered in `chunks`, with `builder` as
/// the strategy: every chunk is fed to a driver, which is asked for steps until it
/// has to pull again, and at the end the source is reported exhausted.
pub fn read_to_end<B: EventBuilder>(builder: B, chunks: &[&[u8]]) -> (received: Received)
    ensures
        received@ == transcript::<B>(
            StreamView::start(builder.cycle()),
            chunks@.map_values(|c: &[u8]| c@),
        ),
        received@ == stream_outcomes::<B>(
            builder.cycle(),
            chunks@.map_values(|c: &[u8]| c@).flatten(),
        ),
{
    let ghost all = chunks@.map_values(|c: &[u8]| c@);
    let ghost start = StreamView::start(builder.cycle());
    let mut driver = Driver::new(builder);
    let mut events: Vec<Event> = Vec::new();
    let mut invalid = false;
    let mut i: usize = 0;
    proof {
        assert(all.subrange(0, all.len() as int) =~= all);
        assert(outcomes(events@, invalid) =~= Seq::<Outcome>::empty());
        assert(Seq::<Outcome>::empty() + transcript::<B>(start, all) =~= transcript::<B>(
            start,
            all,
        ));
    }
    while i < chunks.len()
        invariant
            i <= chunks.len(),
            all == chunks@.map_values(|c: &[u8]| c@),
            invalid ==> driver@.state is Errored,
            outcomes(events@, invalid) + transcript::<B>(
                driver@,
                all.subrange(i as int, all.len() as int),
            ) == transcript::<B>(start, all),
        decreases chunks.len() - i,
    {
        let ghost before = driver@;
        let ghost held = outcomes(events@, invalid);
        let ghost left = all.subrange(i as int, all.len() as int);
        take_steps(&mut driver, &mut events, &mut invalid);
        driver.feed(chunks[i]);
        i = i + 1;
        proof {
            assert(left.first() == chunks@[i - 1]@);
            assert(left.drop_first() =~= all.subrange(i as int, all.len() as int));
            let emitted = drain::<B>(before).1;
            let later = transcript::<B>(driver@, left.drop_first());
            assert((held + emitted) + later =~= held + (emitted + later));
        }
    }
    let ghost before = driver@;
    let ghost held = outcomes(events@, invalid);
    take_steps(&mut driver, &mut events, &mut invalid);
    let ghost emitted = outcomes(events@, invalid);
    driver.finish();
    take_steps(&mut driver, &mut events, &mut invalid);
    proof {
        let first = drain::<B>(before).1;
        let last = drain::<B>(drain::<B>(before).0.finished()).1;
        assert(all.subrange(i as int, all.len() as int).len() == 0);
        assert((held + first) + last =~= held + (first + last));
        lemma_transcript_is_stream_outcomes::<B>(start.cycle, all);
    }
    Received { events, invalid }
}

} // verus!
