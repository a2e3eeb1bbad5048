//! What a single line of the stream says.
//!
//! An empty line closes a cycle. A line that begins with a colon is a comment. Any
//! other line names a field, and gives it a value if it holds a colon: the name is
//! what stands before the first colon, the value what stands after it, less one space
//! if the value begins with one.

use crate::line::{first_of, is_first, lemma_first_of};
use crate::text::{after_ascii, decode, lemma_text_of_bytes, split_before_ascii};
use vstd::prelude::*;
use vstd::string::*;
use vstd::utf8::*;

verus! {

/// The colon that parts a field's name from its value.
pub const COLON: u8 = 0x3A;

/// The space that may follow the colon of a field.
pub const SPACE: u8 = 0x20;

/// A line of the stream, told apart by its kind. The text it holds is borrowed from
/// the line.
#[derive(Debug, Clone, Copy, PartialEq, Eq)]
pub enum RawEventLine<'a> {
    /// A comment, with the text after its colon.
    Comment(&'a str),
    /// A field's name, and its value where the line holds a colon.
    Field(&'a str, Option<&'a str>),
    /// A line without a single byte.
    Empty,
}

/// What a [`RawEventLine`] holds, as contracts see it.
pub ghost enum RawLine {
    Comment(Seq<char>),
    Field(Seq<char>, Option<Seq<char>>),
    Empty,
}

impl<'a> View for RawEventLine<'a> {
    type V = RawLine;

    open spec fn view(&self) -> RawLine {
        match *self {
            RawEventLine::Comment(text) => RawLine::Comment(text@),
            RawEventLine::Field(name, Some(value)) => RawLine::Field(name@, Some(value@)),
            RawEventLine::Field(name, None) => RawLine::Field(name@, None),
            RawEventLine::Empty => RawLine::Empty,
        }
    }
}

impl RawLine {
    /// The value of a field, an absent one read as empty; empty for other lines too.
    pub open spec fn value(self) -> Seq<char> {
        match self {
            RawLine::Field(_, Some(value)) => value,
            _ => Seq::empty(),
        }
    }
}

/// Where the first colon of `line` stands; the length of `line` if it has none.
pub open spec fn first_colon(line: Seq<u8>) -> int {
    first_of(line, |b: u8| b == COLON)
}

/// Where the value begins in a field line whose first colon stands at `colon`.
pub open spec fn value_start(line: Seq<u8>, colon: int) -> int {
    if colon + 1 < line.len() && line[colon + 1] == SPACE {
        colon + 2
    } else {
        colon + 1
    }
}

/// What `line` says, where `line` is a line of well-formed UTF-8 without its
/// terminator.
pub open spec fn classify(line: Seq<u8>) -> RawLine {
    let colon = first_colon(line);
    let end = line.len() as int;
    if end == 0 {
        RawLine::Empty
    } else if colon == 0 {
        RawLine::Comment(decode_utf8(line.subrange(1, end)))
    } else if colon == end {
        RawLine::Field(decode_utf8(line), None)
    } else {
        RawLine::Field(
            decode_utf8(line.subrange(0, colon)),
            Some(decode_utf8(line.subrange(value_start(line, colon), end))),
        )
    }
}

/// The empty line is the line without a single byte: a line of spaces is a field
/// name, and a line of one colon is a comment.
pub proof fn lemma_empty_line_has_no_bytes(line: Seq<u8>)
    ensures
        classify(line) is Empty <==> line.len() == 0,
{
}

/// Whether `c` is the line feed.
pub fn is_lf(c: char) -> (yes: bool)
    ensures
        yes == (c == '\n'),
{
    c == '\u{000A}'
}

/// Whether `c` is the byte-order mark.
pub fn is_bom(c: char) -> (yes: bool)
    ensures
        yes == (c == '\u{feff}'),
{
    c == '\u{feff}'
}

/// Tells what a line of text says.
pub fn classify_text<'a>(text: &'a str) -> (line: RawEventLine<'a>)
    ensures
        line@ == classify(text.spec_bytes()),
{
    let bytes = text.as_bytes();
    let end: usize = bytes.len();
    let mut colon: usize = 0;
    while colon < end && bytes[colon] != COLON
        invariant
            colon <= end,
            end == bytes@.len(),
            forall|j: int| 0 <= j < colon ==> bytes@[j] != COLON,
        decreases end - colon,
    {
        colon = colon + 1;
    }
    proof {
        let stop = |b: u8| b == COLON;
        assert(is_first(bytes@, stop, colon as int));
        lemma_first_of(bytes@, stop);
    }
    if end == 0 {
        RawEventLine::Empty
    } else if colon == 0 {
        let comment = after_ascii(text);
        proof {
            lemma_text_of_bytes(comment);
        }
        RawEventLine::Comment(comment)
    } else if colon == end {
        proof {
            lemma_text_of_bytes(text);
        }
        RawEventLine::Field(text, None)
    } else {
        let (name, tail) = split_before_ascii(text, colon);
        let after_colon = after_ascii(tail);
        let value = if colon + 1 < end && bytes[colon + 1] == SPACE {
            after_ascii(after_colon)
        } else {
            after_colon
        };
        proof {
            lemma_text_of_bytes(name);
            lemma_text_of_bytes(value);
            assert(value.spec_bytes() =~= bytes@.subrange(
                value_start(bytes@, colon as int),
                end as int,
            ));
        }
        RawEventLine::Field(name, Some(value))
    }
}

/// Reads a line of the stream, given without its terminator.
///
/// `None` means that the line is not well-formed UTF-8.
pub fn parse_line<'a>(line: &'a [u8]) -> (parsed: Option<RawEventLine<'a>>)
    ensures
        parsed is Some <==> valid_utf8(line@),
        parsed matches Some(l) ==> l@ == classify(line@),
{
    match decode(line) {
        Some(text) => Some(classify_text(text)),
        None => None,
    }
}

} // verus!
