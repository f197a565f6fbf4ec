//! What holds of lines and columns.

use vstd::prelude::*;
use vstd::utf8::encode_scalar;
use vstd::utf8::encode_utf8;
use vstd::utf8::is_ascii_chars;
use vstd::utf8::is_char_boundary;
use vstd::utf8::length_of_first_scalar;
use vstd::utf8::pop_first_scalar;
use crate::docs::lemma_newline_count_add;
use crate::docs::lemma_no_newline;
use crate::handler::span_len;
use crate::source::Location;
use crate::source::column_fits;
use crate::source::cursor_span;
use crate::source::last_line_len;
use crate::source::line_start;
use crate::source::located;
use crate::source::newline_count;
use crate::source::nth_line_start;
use crate::source::text_before;
use crate::text::byte_len;
use crate::text::lemma_byte_len_one;
use crate::text::lemma_encode_add;

verus! {

/// The bytes of the beginning of a text end between two characters.
proof fn lemma_boundary(a: Seq<char>, b: Seq<char>)
    ensures
        is_char_boundary(encode_utf8(a + b), byte_len(a) as int),
    decreases a.len(),
{
    let bytes = encode_utf8(a + b);
    vstd::utf8::encode_utf8_valid_utf8(a + b);
    if a.len() > 0 {
        vstd::utf8::encode_utf8_first_scalar(a + b);
        assert((a + b).drop_first() =~= a.drop_first() + b);
        assert(pop_first_scalar(bytes) =~= encode_utf8(a.drop_first() + b));
        lemma_boundary(a.drop_first(), b);
        lemma_encode_add(a, b);
        assert(byte_len(a) == length_of_first_scalar(bytes) + byte_len(a.drop_first()));
    }
}

/// Before the bytes of the end of a text stands its beginning.
proof fn lemma_before(a: Seq<char>, b: Seq<char>)
    ensures
        text_before(a + b, byte_len(a) as int) == Some(a),
{
    lemma_boundary(a, b);
    lemma_encode_add(a, b);
    assert(encode_utf8(a + b).subrange(0, byte_len(a) as int) =~= encode_utf8(a));
    vstd::utf8::encode_utf8_decode_utf8(a);
}

/// Only a line feed has a byte that is that of a line feed.
proof fn lemma_line_feed_byte(c: char)
    ensures
        encode_utf8(seq![c]).contains(10) <==> c == '\n',
        c == '\n' ==> encode_utf8(seq![c]) == seq![10u8],
{
    lemma_byte_len_one(c);
    vstd::utf8::char_is_scalar(c);
    let u = c as u32;
    let bytes = encode_scalar(u);
    assert(u <= 0x7f ==> (u & 0x7f) as u8 == u) by (bit_vector);
    assert(0xC0u8 | ((u >> 6) & 0x1F) as u8 != 10) by (bit_vector);
    assert(0xE0u8 | ((u >> 12) & 0x0F) as u8 != 10) by (bit_vector);
    assert(0xF0u8 | ((u >> 18) & 0x7) as u8 != 10) by (bit_vector);
    assert(0x80u8 | (u & 0x3F) as u8 != 10) by (bit_vector);
    assert(0x80u8 | ((u >> 6) & 0x3F) as u8 != 10) by (bit_vector);
    assert(0x80u8 | ((u >> 12) & 0x3F) as u8 != 10) by (bit_vector);
    if c == '\n' {
        assert(bytes[0] == 10);
        assert(bytes =~= seq![10u8]);
    }
}

/// A text without line feeds has no byte of one.
proof fn lemma_no_line_feed_byte(s: Seq<char>)
    requires
        forall|i: int| 0 <= i < s.len() ==> s[i] != '\n',
    ensures
        !encode_utf8(s).contains(10),
    decreases s.len(),
{
    if s.len() > 0 {
        let rest = s.drop_first();
        lemma_no_line_feed_byte(rest);
        lemma_line_feed_byte(s[0]);
        lemma_byte_len_one(s[0]);
        let head = encode_scalar(s[0] as u32);
        assert forall|i: int| 0 <= i < encode_utf8(s).len() implies encode_utf8(s)[i] != 10 by {
            if i < head.len() {
                assert(encode_utf8(s)[i] == head[i]);
                assert(head.contains(head[i]));
            } else {
                assert(encode_utf8(s)[i] == encode_utf8(rest)[i - head.len()]);
                assert(encode_utf8(rest).contains(encode_utf8(rest)[i - head.len()]));
            }
        }
    }
}

/// The part of a text before its first line feed; all of it if there is none.
spec fn head(s: Seq<char>) -> Seq<char>
    decreases s.len(),
{
    if s.len() == 0 || s[0] == '\n' {
        seq![]
    } else {
        seq![s[0]] + head(s.drop_first())
    }
}

/// The part of a text before its first line feed holds none, and the line feed follows it.
proof fn lemma_head(s: Seq<char>)
    ensures
        forall|i: int| 0 <= i < head(s).len() ==> head(s)[i] != '\n',
        head(s).len() <= s.len(),
        head(s) == s.take(head(s).len() as int),
        head(s).len() < s.len() ==> s[head(s).len() as int] == '\n',
    decreases s.len(),
{
    if s.len() > 0 && s[0] != '\n' {
        lemma_head(s.drop_first());
        let rest = head(s.drop_first());
        assert(head(s).len() == rest.len() + 1);
        assert(head(s) =~= s.take(head(s).len() as int));
        if head(s).len() < s.len() {
            assert(s.drop_first()[rest.len() as int] == s[head(s).len() as int]);
        }
    }
}

/// The first byte of a line feed is the one after the first line of the text.
proof fn lemma_first_line_feed(a: Seq<char>, rest: Seq<char>)
    requires
        forall|i: int| 0 <= i < a.len() ==> a[i] != '\n',
    ensures
        ({
            let bytes = encode_utf8(a + seq!['\n'] + rest);
            &&& bytes.contains(10)
            &&& bytes.index_of_first(10) == Some(byte_len(a) as int)
            &&& bytes.skip(byte_len(a) + 1int) == encode_utf8(rest)
        }),
{
    let bytes = encode_utf8(a + seq!['\n'] + rest);
    let n = byte_len(a) as int;
    lemma_encode_add(a, seq!['\n']);
    lemma_encode_add(a + seq!['\n'], rest);
    lemma_line_feed_byte('\n');
    lemma_no_line_feed_byte(a);
    assert(bytes[n] == 10);
    assert(bytes.contains(10));
    bytes.index_of_first_ensures(10);
    let k = bytes.index_of_first(10)->0;
    if k < n {
        assert(encode_utf8(a)[k] == 10);
        assert(encode_utf8(a).contains(10));
    }
    assert(bytes.skip(n + 1) =~= encode_utf8(rest));
}

/// A line that starts after a beginning of the text, with as many line feeds as lines before it, the
/// last of them at its end.
spec fn starts_after(text: Seq<char>, line: nat, a: Seq<char>) -> bool {
    &&& a == text.take(a.len() as int)
    &&& a.len() <= text.len()
    &&& nth_line_start(encode_utf8(text), line) == Some(byte_len(a) as int)
    &&& newline_count(a) == line
    &&& last_line_len(a) == 0
}

/// A line start lies after a beginning of the text that ends with a line feed.
proof fn lemma_line_start(text: Seq<char>, line: nat)
    ensures
        nth_line_start(encode_utf8(text), line) is Some ==> exists|a: Seq<char>|
            starts_after(text, line, a),
    decreases line,
{
    if line == 0 {
        assert(text.take(0) =~= seq![]);
        assert(encode_utf8(seq![]).len() == 0);
        assert(starts_after(text, 0, seq![]));
    } else if nth_line_start(encode_utf8(text), line) is Some {
        let a = head(text);
        lemma_head(text);
        if a.len() == text.len() {
            assert(a =~= text);
            lemma_no_line_feed_byte(text);
        } else {
            let rest = text.skip(a.len() + 1int);
            assert(text =~= a + seq!['\n'] + rest);
            lemma_first_line_feed(a, rest);
            let above = (line - 1) as nat;
            lemma_line_start(rest, above);
            let b = choose|b: Seq<char>| starts_after(rest, above, b);
            let before = a + seq!['\n'] + b;
            assert(before =~= text.take(before.len() as int)) by {
                assert(b =~= rest.take(b.len() as int));
            }
            lemma_line_feed_byte('\n');
            lemma_encode_add(a + seq!['\n'], b);
            lemma_encode_add(a, seq!['\n']);
            lemma_newline_count_add(a + seq!['\n'], b);
            lemma_newline_count_add(a, seq!['\n']);
            lemma_no_newline(a);
            assert(newline_count(seq!['\n']) == 1) by {
                reveal_with_fuel(newline_count, 2);
            }
            lemma_last_line_len_add(a + seq!['\n'], b);
            assert((a + seq!['\n']).last() == '\n');
            assert(starts_after(text, line, before));
        }
    }
}

/// The last line of a text is that of its second half, unless that half has no line feed.
proof fn lemma_last_line_len_add(a: Seq<char>, b: Seq<char>)
    ensures
        last_line_len(a + b) == if newline_count(b) == 0 {
            last_line_len(a) + b.len()
        } else {
            last_line_len(b)
        },
    decreases b.len(),
{
    if b.len() == 0 {
        assert(a + b =~= a);
    } else {
        assert((a + b).drop_last() =~= a + b.drop_last());
        assert((a + b).last() == b.last());
        lemma_last_line_len_add(a, b.drop_last());
    }
}

/// A line starts in column zero of that line.
pub proof fn law_line_start_located(text: Seq<char>, line: u32)
    ensures
        line_start(text, line) matches Some(start) ==> located(text, start) == Some(
            Location { line, column: 0 },
        ),
{
    if let Some(start) = line_start(text, line) {
        lemma_line_start(text, line as nat);
        let a = choose|a: Seq<char>| starts_after(text, line as nat, a);
        assert(text =~= a + text.skip(a.len() as int));
        lemma_before(a, text.skip(a.len() as int));
    }
}

/// The span from the start of a line to a column is as long as the column says.
pub proof fn law_cursor_span_len(text: Seq<char>, line: u32, col: u32)
    requires
        column_fits(text, line, col),
    ensures
        cursor_span(text, line, col) matches Some(span) ==> {
            &&& span.start <= span.end
            &&& span_len(span) == col
            &&& Some(span.start as int) == line_start(text, line)
        },
{
    if line_start(text, line) is Some {
        lemma_line_start(text, line as nat);
    }
}

/// A cursor behind `col` characters of one byte each, counted from the start of its line, stands in
/// column `col` of that line.
pub proof fn law_cursor_located(text: Seq<char>, line: u32, before: Seq<char>, passed: Seq<char>)
    requires
        line_start(text, line) matches Some(start) && text_before(text, start) == Some(before),
        (before + passed).is_prefix_of(text),
        is_ascii_chars(passed),
        !passed.contains('\n'),
        passed.len() <= u32::MAX,
        column_fits(text, line, passed.len() as u32),
    ensures
        ({
            let col = passed.len() as u32;
            &&& cursor_span(text, line, col) matches Some(span)
            &&& located(text, span.end as int) == Some(Location { line, column: col })
        }),
{
    let start = line_start(text, line)->0;
    let col = passed.len() as u32;
    lemma_line_start(text, line as nat);
    let a = choose|a: Seq<char>| starts_after(text, line as nat, a);
    assert(text =~= a + text.skip(a.len() as int));
    lemma_before(a, text.skip(a.len() as int));
    assert(before == a);
    let reached = before + passed;
    let after = text.skip(reached.len() as int);
    assert(text =~= reached + after);
    lemma_before(reached, after);
    lemma_encode_add(before, passed);
    vstd::utf8::is_ascii_chars_encode_utf8(passed);
    lemma_newline_count_add(before, passed);
    assert forall|i: int| 0 <= i < passed.len() implies passed[i] != '\n' by {
        assert(passed.contains(passed[i]));
    }
    lemma_no_newline(passed);
    lemma_last_line_len_add(before, passed);
}

} // verus!
