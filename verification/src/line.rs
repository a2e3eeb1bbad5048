//! The line splitter: where the lines of a byte stream end.
//!
//! A line ends at a line feed, at a carriage return followed by a line feed, or at a
//! carriage return alone. A carriage return that is the last byte at hand ends nothing
//! yet: the byte after it may still be a line feed.

use vstd::prelude::*;
use vstd::slice::*;

verus! {

/// Line feed.
pub const LF: u8 = 0x0A;

/// Carriage return.
pub const CR: u8 = 0x0D;

/// Whether `b` is one of the two bytes that end a line.
pub open spec fn is_break(b: u8) -> bool {
    b == LF || b == CR
}

/// `i` is where the first byte of `s` that satisfies `stop` stands, or the length of
/// `s` if no byte does.
pub open spec fn is_first(s: Seq<u8>, stop: spec_fn(u8) -> bool, i: int) -> bool {
    &&& 0 <= i <= s.len()
    &&& i < s.len() ==> stop(s[i])
    &&& forall|j: int| 0 <= j < i ==> !stop(#[trigger] s[j])
}

/// Where the first byte of `s` that satisfies `stop` stands; the length of `s` if
/// there is none.
pub open spec fn first_of(s: Seq<u8>, stop: spec_fn(u8) -> bool) -> int {
    choose|i: int| is_first(s, stop, i)
}

proof fn lemma_first_from(s: Seq<u8>, stop: spec_fn(u8) -> bool, k: int)
    requires
        0 <= k <= s.len(),
        forall|j: int| 0 <= j < k ==> !stop(#[trigger] s[j]),
    ensures
        exists|i: int| is_first(s, stop, i),
    decreases s.len() - k,
{
    if k == s.len() || stop(s[k]) {
        assert(is_first(s, stop, k));
    } else {
        lemma_first_from(s, stop, k + 1);
    }
}

/// `first_of` is the one index that `is_first` describes.
pub proof fn lemma_first_of(s: Seq<u8>, stop: spec_fn(u8) -> bool)
    ensures
        is_first(s, stop, first_of(s, stop)),
        forall|i: int| is_first(s, stop, i) ==> i == first_of(s, stop),
{
    lemma_first_from(s, stop, 0);
    let f = first_of(s, stop);
    assert forall|i: int| is_first(s, stop, i) implies i == f by {
        if i < f {
            assert(!stop(s[i]));
        } else if f < i {
            assert(!stop(s[f]));
        }
    }
}

/// Where the first line break of `s` stands; the length of `s` if it has none.
pub open spec fn first_break(s: Seq<u8>) -> int {
    first_of(s, |b: u8| is_break(b))
}

/// Where a line ends and where the bytes after its terminator begin.
pub ghost struct Cut {
    /// The line is the bytes before this index.
    pub end: int,
    /// The bytes from this index on are left for the lines that follow.
    pub next: int,
}

/// The first line of `s`, if `s` holds one in full.
///
/// With `at_end` set, nothing will follow `s`: then its end closes a last line that
/// has no terminator, and a carriage return at its end is a terminator of its own.
pub open spec fn first_cut(s: Seq<u8>, at_end: bool) -> Option<Cut> {
    let e = first_break(s);
    if e == s.len() {
        if at_end && s.len() > 0 {
            Some(Cut { end: e, next: e })
        } else {
            None
        }
    } else if s[e] == CR && e + 1 == s.len() {
        if at_end {
            Some(Cut { end: e, next: e + 1 })
        } else {
            None
        }
    } else if s[e] == CR && s[e + 1] == LF {
        Some(Cut { end: e, next: e + 2 })
    } else {
        Some(Cut { end: e, next: e + 1 })
    }
}

/// A cut lies inside the bytes it was made in, and takes at least one byte away.
pub proof fn lemma_cut_bounds(s: Seq<u8>, at_end: bool)
    ensures
        first_cut(s, at_end) matches Some(cut) ==> 0 <= cut.end <= cut.next <= s.len() && 0
            < cut.next,
{
    lemma_first_of(s, |b: u8| is_break(b));
}

/// Whether `s` begins with the byte-order mark as UTF-8 encodes it.
pub open spec fn has_bom(s: Seq<u8>) -> bool {
    s.len() >= 3 && s[0] == 0xEF && s[1] == 0xBB && s[2] == 0xBF
}

/// `s` without the byte-order mark that it may begin with.
pub open spec fn without_bom(s: Seq<u8>) -> Seq<u8> {
    if has_bom(s) {
        s.subrange(3, s.len() as int)
    } else {
        s
    }
}

/// What a [`LineSplitter`] holds, as contracts see it.
pub ghost struct SplitterView {
    /// The bytes received and not yet handed out as lines.
    pub pending: Seq<u8>,
    /// Whether no line has been handed out yet.
    pub fresh: bool,
}

/// The line that a splitter in state `v` hands out next, and the state it is in then.
pub open spec fn first_line(v: SplitterView, at_end: bool) -> Option<(Seq<u8>, SplitterView)> {
    match first_cut(v.pending, at_end) {
        Some(cut) => {
            let raw = v.pending.subrange(0, cut.end);
            Some(
                (
                    if v.fresh {
                        without_bom(raw)
                    } else {
                        raw
                    },
                    SplitterView {
                        pending: v.pending.subrange(cut.next, v.pending.len() as int),
                        fresh: false,
                    },
                ),
            )
        },
        None => None,
    }
}

/// Collects the bytes of a stream and cuts them into lines.
///
/// The bytes that were handed out stay in the buffer until the next chunk comes, so
/// that a line can be lent out of it. The splitter remembers how far it has looked
/// for a line break in vain, and does not look there again.
pub struct LineSplitter {
    buffer: Vec<u8>,
    start: usize,
    scanned: usize,
    fresh: bool,
}

impl View for LineSplitter {
    type V = SplitterView;

    closed spec fn view(&self) -> SplitterView {
        SplitterView {
            pending: self.buffer@.subrange(self.start as int, self.buffer@.len() as int),
            fresh: self.fresh,
        }
    }
}

impl LineSplitter {
    /// The pending bytes begin at `start`, and the first `scanned` of them hold no
    /// line break.
    #[verifier::type_invariant]
    spec fn in_bounds(self) -> bool {
        &&& self.start + self.scanned <= self.buffer@.len()
        &&& forall|j: int|
            self.start <= j < self.start + self.scanned ==> !is_break(#[trigger] self.buffer@[j])
    }

    /// A splitter that has received nothing.
    pub fn new() -> (splitter: LineSplitter)
        ensures
            splitter@ == (SplitterView { pending: Seq::empty(), fresh: true }),
    {
        let splitter = LineSplitter { buffer: Vec::new(), start: 0, scanned: 0, fresh: true };
        assert(splitter@.pending =~= Seq::empty());
        splitter
    }

    /// Receives `chunk`, wherever the stream was cut to make it.
    pub fn push(&mut self, chunk: &[u8])
        ensures
            final(self)@ == (SplitterView {
                pending: old(self)@.pending + chunk@,
                fresh: old(self)@.fresh,
            }),
    {
        proof {
            use_type_invariant(&*self);
        }
        let start: usize = self.start;
        let scanned: usize = self.scanned;
        let mut consumed: Vec<u8> = Vec::new();
        self.scanned = 0;
        self.start = 0;
        core::mem::swap(&mut self.buffer, &mut consumed);
        let mut pending = if start > 0 {
            consumed.split_off(start)
        } else {
            consumed
        };
        assert(pending@ =~= old(self)@.pending);
        pending.extend_from_slice(chunk);
        self.buffer = pending;
        assert(self@.pending =~= old(self)@.pending + chunk@);
        self.scanned = scanned;
    }

    /// Forgets the bytes that are pending.
    pub fn clear(&mut self)
        ensures
            final(self)@ == (SplitterView { pending: Seq::empty(), fresh: old(self)@.fresh }),
    {
        proof {
            use_type_invariant(&*self);
        }
        self.scanned = 0;
        self.start = 0;
        self.buffer = Vec::new();
        assert(self@.pending =~= Seq::empty());
    }

    /// Hands out the next line, without its terminator and, if it is the first line of
    /// the stream, without a byte-order mark at its start.
    ///
    /// `None` means that the pending bytes hold no line in full; they stay as they are.
    pub fn next_line(&mut self, at_end: bool) -> (line: Option<&[u8]>)
        ensures
            match first_line(old(self)@, at_end) {
                Some((bytes, rest)) => line is Some && line.unwrap()@ == bytes && final(self)@
                    == rest,
                None => line is None && final(self)@ == old(self)@,
            },
    {
        proof {
            use_type_invariant(&*self);
        }
        let len: usize = self.buffer.len();
        let begin: usize = self.start;
        let ghost pending = self@.pending;
        let mut i: usize = begin + self.scanned;
        while i < len && self.buffer[i] != LF && self.buffer[i] != CR
            invariant
                begin <= i <= len,
                len == self.buffer@.len(),
                begin == self.start,
                self.start + self.scanned <= i,
                pending == self.buffer@.subrange(begin as int, len as int),
                forall|j: int| 0 <= j < i - begin ==> !is_break(#[trigger] pending[j]),
            decreases len - i,
        {
            i = i + 1;
        }
        proof {
            let stop = |b: u8| is_break(b);
            assert(is_first(pending, stop, i - begin));
            lemma_first_of(pending, stop);
            assert forall|j: int| begin <= j < i implies !is_break(#[trigger] self.buffer@[j]) by {
                assert(self.buffer@[j] == pending[j - begin]);
            }
        }
        let next: usize;
        if i == len {
            if !at_end || i == begin {
                self.scanned = i - begin;
                return None;
            }
            next = len;
        } else if self.buffer[i] == CR && i + 1 == len {
            if !at_end {
                self.scanned = i - begin;
                return None;
            }
            next = len;
        } else if self.buffer[i] == CR && self.buffer[i + 1] == LF {
            next = i + 2;
        } else {
            next = i + 1;
        }
        let mut from: usize = begin;
        if self.fresh && i - begin >= 3 && self.buffer[begin] == 0xEF && self.buffer[begin + 1]
            == 0xBB && self.buffer[begin + 2] == 0xBF {
            from = begin + 3;
        }
        self.scanned = 0;
        self.start = next;
        self.fresh = false;
        let line = slice_subrange(self.buffer.as_slice(), from, i);
        proof {
            let raw = pending.subrange(0, i - begin);
            assert(self@.pending =~= pending.subrange(next - begin, pending.len() as int));
            if from == begin {
                assert(line@ =~= raw);
            } else {
                assert(line@ =~= raw.subrange(3, raw.len() as int));
            }
        }
        Some(line)
    }
}

} // verus!
