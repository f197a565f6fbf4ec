//! Positions in a source text: byte spans, lines and columns.

use vstd::prelude::*;
use vstd::utf8::decode_utf8;
use vstd::utf8::encode_utf8;
use vstd::utf8::is_char_boundary;
use crate::text::byte_len;

verus! {

/// A range of bytes of a source text.
#[derive(Clone, Copy, Debug, PartialEq, Eq, Structural)]
pub struct Span {
    pub start: u32,
    pub end: u32,
}

/// A place in a source text, both numbers counted from zero, the column in characters.
#[derive(Clone, Copy, Debug, PartialEq, Eq, Structural)]
pub struct Location {
    pub line: u32,
    pub column: u32,
}

/// The number of line feeds in a text.
pub open spec fn newline_count(s: Seq<char>) -> nat
    decreases s.len(),
{
    if s.len() == 0 {
        0
    } else {
        newline_count(s.drop_last()) + if s.last() == '\n' {
            1nat
        } else {
            0nat
        }
    }
}

/// The number of characters after the last line feed of a text.
pub open spec fn last_line_len(s: Seq<char>) -> nat
    decreases s.len(),
{
    if s.len() == 0 || s.last() == '\n' {
        0
    } else {
        last_line_len(s.drop_last()) + 1
    }
}

/// The first `index` bytes of a text, where they end between two characters.
pub open spec fn text_before(text: Seq<char>, index: int) -> Option<Seq<char>> {
    if is_char_boundary(encode_utf8(text), index) {
        Some(decode_utf8(encode_utf8(text).subrange(0, index)))
    } else {
        None
    }
}

/// The line and column of the byte `index` of a text, where that is the first byte of a character
/// or the end of the text.
pub open spec fn located(text: Seq<char>, index: int) -> Option<Location> {
    match text_before(text, index) {
        Some(before) => Some(
            Location {
                line: newline_count(before) as u32,
                column: last_line_len(before) as u32,
            },
        ),
        None => None,
    }
}

/// The bytes from `start` to `end` of a text, where both lie between two characters.
pub open spec fn sliced(text: Seq<char>, start: int, end: int) -> Option<Seq<char>> {
    let bytes = encode_utf8(text);
    if start <= end && is_char_boundary(bytes, start) && is_char_boundary(bytes, end) {
        Some(decode_utf8(bytes.subrange(start, end)))
    } else {
        None
    }
}

/// The position of the byte that follows the line feed number `line` in `bytes`; 0 for line 0.
pub open spec fn nth_line_start(bytes: Seq<u8>, line: nat) -> Option<int>
    decreases line,
{
    if line == 0 {
        Some(0)
    } else if !bytes.contains(10) {
        None
    } else {
        let rest = bytes.index_of_first(10)->0 + 1;
        match nth_line_start(bytes.skip(rest), (line - 1) as nat) {
            Some(start) => Some(rest + start),
            None => None,
        }
    }
}

/// The byte position at which line `line` of a text starts.
pub open spec fn line_start(text: Seq<char>, line: u32) -> Option<int> {
    nth_line_start(encode_utf8(text), line as nat)
}

/// The end of the span from the start of line `line` to column `col` fits the type of a position.
pub open spec fn column_fits(text: Seq<char>, line: u32, col: u32) -> bool {
    match line_start(text, line) {
        Some(start) => start + col <= u32::MAX,
        None => true,
    }
}

/// `codespan::Span::new` panics unless `start <= end`; otherwise it makes the span with these two
/// ends, which `codespan::Span::start` and `codespan::Span::end` give back.
#[verifier::external_body]
pub(crate) fn span(start: u32, end: u32) -> (r: Span)
    requires
        start <= end,
    ensures
        r == (Span { start, end }),
{
    let span = codespan::Span::new(start, end);
    Span { start: span.start().0, end: span.end().0 }
}

/// The difference of two `codespan::ByteIndex` values, a `codespan::ByteOffset`: it is exact.
#[verifier::external_body]
pub(crate) fn distance(end: u32, start: u32) -> (r: i64)
    ensures
        r == end - start,
{
    (codespan::ByteIndex(end) - codespan::ByteIndex(start)).0
}

/// The sum of a `codespan::ByteIndex` and a `codespan::ByteOffset`, which is exact where it is the
/// number of a byte.
#[verifier::external_body]
pub(crate) fn advance(index: u32, offset: i64) -> (r: u32)
    requires
        0 <= index + offset <= u32::MAX,
    ensures
        r == index + offset,
{
    (codespan::ByteIndex(index) + codespan::ByteOffset(offset)).0
}

/// `codespan::Files::location` on a file with the given source: the line is the number of line
/// feeds before the byte, the column the number of characters between the last of them and the
/// byte. It fails when the byte is past the end or inside a character. To report a byte past the end
/// it subtracts one from the length, which an empty source does not allow; and it counts the lines in
/// 32 bits, which a source of that many line feeds does not allow.
#[verifier::external_body]
fn codespan_location(text: &str, index: u32) -> (r: Option<Location>)
    requires
        byte_len(text@) < u32::MAX,
        text@.len() > 0 || index == 0,
    ensures
        r == located(text@, index as int),
{
    let mut files = codespan::Files::new();
    let id = files.add("", text);
    match files.location(id, index) {
        Ok(l) => Some(Location { line: l.line.0, column: l.column.0 }),
        Err(_) => None,
    }
}

/// `codespan::Files::source_slice` on a file with the given source: the text between the two
/// bytes. It fails when one of them is past the end or inside a character. To report a byte past the
/// end it subtracts one from the length, which an empty source does not allow.
#[verifier::external_body]
fn codespan_slice(text: &str, span: &Span) -> (r: Option<String>)
    requires
        span.start <= span.end,
        text@.len() > 0 || span.end == 0,
    ensures
        match r {
            Some(s) => sliced(text@, span.start as int, span.end as int) == Some(s@),
            None => sliced(text@, span.start as int, span.end as int) is None,
        },
{
    let mut files = codespan::Files::new();
    let id = files.add("", text);
    match files.source_slice(id, codespan::Span::new(span.start, span.end)) {
        Ok(s) => Some(s.to_string()),
        Err(_) => None,
    }
}

/// `line_index::LineIndex::line` on the index of a text: the range of a line, of which this is the
/// start, or nothing if the text has no such line.
#[verifier::external_body]
fn index_line(text: &str, line: u32) -> (r: Option<u32>)
    requires
        byte_len(text@) < u32::MAX,
    ensures
        match r {
            Some(start) => line_start(text@, line) == Some(start as int),
            None => line_start(text@, line) is None,
        },
{
    line_index::LineIndex::new(text).line(line).map(|range| u32::from(range.start()))
}

/// `line_index::LineIndex::offset` on the index of a text: the start of the line plus the column,
/// whatever the length of the line, or nothing if the text has no such line.
#[verifier::external_body]
fn index_offset(text: &str, line: u32, col: u32) -> (r: Option<u32>)
    requires
        byte_len(text@) < u32::MAX,
        column_fits(text@, line, col),
    ensures
        match r {
            Some(offset) => line_start(text@, line) == Some(offset - col),
            None => line_start(text@, line) is None,
        },
{
    line_index::LineIndex::new(text).offset(line_index::LineCol { line, col }).map(u32::from)
}

/// The bytes of an empty text are none.
proof fn lemma_empty_text(text: Seq<char>, index: int)
    requires
        text.len() == 0,
        index > 0,
    ensures
        !is_char_boundary(encode_utf8(text), index),
{
    vstd::utf8::encode_utf8_valid_utf8(text);
    assert(encode_utf8(text).len() == 0);
}

/// What is cut out of a text are the bytes of the text between the two ends.
pub proof fn lemma_sliced(text: Seq<char>, start: int, end: int)
    ensures
        sliced(text, start, end) matches Some(s) ==> {
            &&& 0 <= start <= end <= byte_len(text)
            &&& encode_utf8(s) == encode_utf8(text).subrange(start, end)
            &&& byte_len(s) == end - start
        },
{
    let bytes = encode_utf8(text);
    vstd::utf8::encode_utf8_valid_utf8(text);
    if sliced(text, start, end) is Some {
        let before = bytes.subrange(0, end);
        vstd::utf8::valid_utf8_split(bytes, end);
        if start == end {
            vstd::utf8::is_char_boundary_start_end_of_seq(before);
        } else {
            vstd::utf8::is_char_boundary_iff_not_is_continuation_byte(bytes, start);
            vstd::utf8::is_char_boundary_iff_not_is_continuation_byte(before, start);
        }
        vstd::utf8::valid_utf8_split(before, start);
        assert(before.subrange(start, end) =~= bytes.subrange(start, end));
        vstd::utf8::decode_utf8_encode_utf8(bytes.subrange(start, end));
    }
}

/// Finds the line and column of a byte of a text.
pub fn locate(text: &str, index: u32) -> (r: Option<Location>)
    requires
        byte_len(text@) < u32::MAX,
    ensures
        r == located(text@, index as int),
{
    if text.is_empty() && index > 0 {
        proof {
            lemma_empty_text(text@, index as int);
        }
        return None;
    }
    codespan_location(text, index)
}

/// Cuts the text of a span out of a source.
pub fn slice(text: &str, span: &Span) -> (r: Option<String>)
    requires
        span.start <= span.end,
    ensures
        match r {
            Some(s) => sliced(text@, span.start as int, span.end as int) == Some(s@),
            None => sliced(text@, span.start as int, span.end as int) is None,
        },
{
    if text.is_empty() && span.end > 0 {
        proof {
            lemma_empty_text(text@, span.end as int);
        }
        return None;
    }
    codespan_slice(text, span)
}

/// The span from the start of line `line` to column `col`.
pub open spec fn cursor_span(text: Seq<char>, line: u32, col: u32) -> Option<Span> {
    match line_start(text, line) {
        Some(start) => Some(Span { start: start as u32, end: (start + col) as u32 }),
        None => None,
    }
}

/// Finds the span from the start of line `line` to column `col`.
pub fn span_to_cursor(text: &str, line: u32, col: u32) -> (r: Option<Span>)
    requires
        byte_len(text@) < u32::MAX,
        column_fits(text@, line, col),
    ensures
        r == cursor_span(text@, line, col),
{
    match index_line(text, line) {
        Some(start) => match index_offset(text, line, col) {
            Some(end) => Some(span(start, end)),
            None => None,
        },
        None => None,
    }
}

/// Decides whether the span from the start of line `line` to column `col` can be formed.
pub fn cursor_fits(text: &str, line: u32, col: u32) -> (r: bool)
    requires
        byte_len(text@) < u32::MAX,
    ensures
        r == column_fits(text@, line, col),
{
    match index_line(text, line) {
        Some(start) => col <= u32::MAX - start,
        None => true,
    }
}

} // verus!
