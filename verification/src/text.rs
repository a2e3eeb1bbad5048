//! Text as UTF-8: decoding bytes, and the few questions asked of a field's value.

use vstd::prelude::*;
use vstd::string::*;
use vstd::utf8::*;

verus! {

/// Reads `bytes` as UTF-8 text without copying.
///
/// This is `core::str::from_utf8`, which Verus does not look into. The contract
/// claims of it what its documentation says: the call succeeds exactly on well-formed
/// UTF-8, and the text it returns is made of the very bytes it was given.
#[verifier::external_body]
pub(crate) fn decode(bytes: &[u8]) -> (text: Option<&str>)
    ensures
        text is Some <==> valid_utf8(bytes@),
        text matches Some(t) ==> t.spec_bytes() == bytes@,
{
    match core::str::from_utf8(bytes) {
        Ok(t) => Some(t),
        Err(_) => None,
    }
}

/// The bytes of a piece of text are well-formed UTF-8, and decode to its characters.
pub proof fn lemma_text_of_bytes(text: &str)
    ensures
        valid_utf8(text.spec_bytes()),
        text@ == decode_utf8(text.spec_bytes()),
{
    encode_utf8_valid_utf8(text@);
    encode_utf8_decode_utf8(text@);
}

/// Cuts `text` in two before its byte at `at`, which is an ASCII byte or lies past
/// the last byte: no character is cut in half there.
pub(crate) fn split_before_ascii(text: &str, at: usize) -> (parts: (&str, &str))
    requires
        at <= text.spec_bytes().len(),
        at < text.spec_bytes().len() ==> text.spec_bytes()[at as int] < 0x80,
    ensures
        parts.0.spec_bytes() == text.spec_bytes().subrange(0, at as int),
        parts.1.spec_bytes() == text.spec_bytes().subrange(
            at as int,
            text.spec_bytes().len() as int,
        ),
{
    proof {
        let bytes = text.spec_bytes();
        lemma_text_of_bytes(text);
        if at < bytes.len() {
            is_char_boundary_iff_not_is_continuation_byte(bytes, at as int);
        } else {
            is_char_boundary_start_end_of_seq(bytes);
        }
    }
    text.split_at(at)
}

/// `text` without its first character, which is an ASCII character.
pub(crate) fn after_ascii(text: &str) -> (rest: &str)
    requires
        text.spec_bytes().len() > 0,
        text.spec_bytes()[0] < 0x80,
    ensures
        rest.spec_bytes() == text.spec_bytes().subrange(1, text.spec_bytes().len() as int),
{
    proof {
        let bytes = text.spec_bytes();
        lemma_text_of_bytes(text);
        reveal_with_fuel(is_char_boundary, 2);
        assert(pop_first_scalar(bytes) == bytes.subrange(1, bytes.len() as int));
        assert(is_char_boundary(bytes, 1));
    }
    text.split_at(1).1
}

/// Text is determined by its encoding: equal bytes, equal characters.
pub proof fn lemma_same_bytes_same_text(a: Seq<char>, b: Seq<char>)
    requires
        encode_utf8(a) == encode_utf8(b),
    ensures
        a == b,
{
    encode_utf8_decode_utf8(a);
    encode_utf8_decode_utf8(b);
}

/// Whether two pieces of text hold the same characters.
pub fn str_eq(a: &str, b: &str) -> (same: bool)
    ensures
        same == (a@ == b@),
{
    let x = a.as_bytes();
    let y = b.as_bytes();
    if x.len() != y.len() {
        return false;
    }
    let mut i: usize = 0;
    while i < x.len()
        invariant
            i <= x.len(),
            x.len() == y.len(),
            x@ == a.spec_bytes(),
            y@ == b.spec_bytes(),
            forall|j: int| 0 <= j < i ==> x@[j] == y@[j],
        decreases x.len() - i,
    {
        if x[i] != y[i] {
            return false;
        }
        i = i + 1;
    }
    proof {
        assert(x@ =~= y@);
        lemma_same_bytes_same_text(a@, b@);
    }
    true
}

/// Whether `text` holds the character U+0000.
pub fn has_nul(text: &str) -> (found: bool)
    ensures
        found == text@.contains('\0'),
{
    let mut found = false;
    for c in it: text.chars()
        invariant
            it.seq() == text@,
            found == exists|j: int| 0 <= j < it.index() && text@[j] == '\0',
    {
        if c == '\0' {
            found = true;
        }
    }
    found
}

/// Whether `c` is one of the ten ASCII digits.
pub open spec fn is_digit(c: char) -> bool {
    '0' <= c && c <= '9'
}

/// Whether `text` is made of ASCII digits alone.
pub open spec fn all_digits(text: Seq<char>) -> bool {
    forall|i: int| 0 <= i < text.len() ==> is_digit(#[trigger] text[i])
}

/// The number that the digits of `text` write in base ten.
pub open spec fn decimal(text: Seq<char>) -> nat
    decreases text.len(),
{
    if text.len() == 0 {
        0
    } else {
        10 * decimal(text.drop_last()) + (text.last() as nat - '0' as nat) as nat
    }
}

/// The number of milliseconds that `text` states: `text` is one ASCII digit or more,
/// and the number they write fits in 64 bits.
pub open spec fn millis(text: Seq<char>) -> Option<u64> {
    if text.len() > 0 && all_digits(text) && decimal(text) <= u64::MAX {
        Some(decimal(text) as u64)
    } else {
        None
    }
}

proof fn lemma_decimal_grows(text: Seq<char>, k: int)
    requires
        0 <= k <= text.len(),
    ensures
        decimal(text.subrange(0, k)) <= decimal(text),
    decreases text.len() - k,
{
    if k == text.len() {
        assert(text.subrange(0, k) =~= text);
    } else {
        let longer = text.subrange(0, k + 1);
        assert(longer.drop_last() =~= text.subrange(0, k));
        lemma_decimal_grows(text, k + 1);
    }
}

/// Reads `text` as a number of milliseconds.
pub fn parse_millis(text: &str) -> (ms: Option<u64>)
    ensures
        ms == millis(text@),
{
    if !text.is_ascii() {
        return None;
    }
    let bytes = text.as_bytes();
    let n: usize = bytes.len();
    proof {
        is_ascii_spec_bytes(text);
    }
    if n == 0 {
        return None;
    }
    let mut acc: u64 = 0;
    let mut i: usize = 0;
    while i < n
        invariant
            i <= n,
            n == text@.len(),
            n == bytes@.len(),
            is_ascii_chars(text@),
            forall|k: int| 0 <= k < n ==> bytes@[k] == text@[k] as u8,
            all_digits(text@.subrange(0, i as int)),
            acc == decimal(text@.subrange(0, i as int)),
        decreases n - i,
    {
        let b: u8 = bytes[i];
        let ghost longer = text@.subrange(0, i + 1);
        proof {
            assert(longer.drop_last() =~= text@.subrange(0, i as int));
            assert(longer.last() == text@[i as int]);
        }
        if b < 0x30 || b > 0x39 {
            assert(!is_digit(text@[i as int]));
            return None;
        }
        let d: u64 = (b - 0x30) as u64;
        if acc > (u64::MAX - d) / 10 {
            proof {
                lemma_decimal_grows(text@, i + 1);
            }
            return None;
        }
        acc = acc * 10 + d;
        i = i + 1;
        proof {
            assert forall|k: int| 0 <= k < longer.len() implies is_digit(#[trigger] longer[k]) by {
                if k < i - 1 {
                    assert(longer[k] == text@.subrange(0, i - 1)[k]);
                }
            }
        }
    }
    proof {
        assert(text@.subrange(0, n as int) =~= text@);
    }
    Some(acc)
}

} // verus!
