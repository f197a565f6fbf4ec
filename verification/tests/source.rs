use move_hover::source::{cursor_fits, locate, slice, span_to_cursor, Location, Span};

const TEXT: &str = "ab\ncdé f\r\n\nlast";

#[test]
fn locations_count_lines_and_characters() {
    assert_eq!(locate(TEXT, 0), Some(Location { line: 0, column: 0 }));
    assert_eq!(locate(TEXT, 2), Some(Location { line: 0, column: 2 }));
    assert_eq!(locate(TEXT, 3), Some(Location { line: 1, column: 0 }));
    // the two bytes of the accented letter are one column
    assert_eq!(locate(TEXT, 5), Some(Location { line: 1, column: 2 }));
    assert_eq!(locate(TEXT, 7), Some(Location { line: 1, column: 3 }));
    assert_eq!(locate(TEXT, 12), Some(Location { line: 3, column: 0 }));
    assert_eq!(locate(TEXT, 16), Some(Location { line: 3, column: 4 }));
}

#[test]
fn nothing_is_located_outside_of_the_text_or_inside_a_character() {
    assert_eq!(locate(TEXT, 6), None);
    assert_eq!(locate(TEXT, 17), None);
    assert_eq!(locate(TEXT, u32::MAX), None);
}

#[test]
fn locations_in_an_empty_text() {
    assert_eq!(locate("", 0), Some(Location { line: 0, column: 0 }));
    assert_eq!(locate("", 1), None);
}

#[test]
fn slices_are_cut_at_bytes() {
    assert_eq!(slice(TEXT, &Span { start: 3, end: 7 }).as_deref(), Some("cdé"));
    assert_eq!(slice(TEXT, &Span { start: 0, end: 16 }).as_deref(), Some(TEXT));
    assert_eq!(slice(TEXT, &Span { start: 4, end: 4 }).as_deref(), Some(""));
    assert_eq!(slice(TEXT, &Span { start: 3, end: 6 }), None);
    assert_eq!(slice(TEXT, &Span { start: 3, end: 17 }), None);
    assert_eq!(slice("", &Span { start: 0, end: 0 }).as_deref(), Some(""));
    assert_eq!(slice("", &Span { start: 0, end: 1 }), None);
}

#[test]
fn the_span_to_the_cursor_starts_with_its_line() {
    assert_eq!(span_to_cursor(TEXT, 0, 1), Some(Span { start: 0, end: 1 }));
    assert_eq!(span_to_cursor(TEXT, 1, 4), Some(Span { start: 3, end: 7 }));
    assert_eq!(span_to_cursor(TEXT, 3, 4), Some(Span { start: 12, end: 16 }));
    // columns may lie behind the end of the line
    assert_eq!(span_to_cursor(TEXT, 2, 1000), Some(Span { start: 11, end: 1011 }));
    assert_eq!(span_to_cursor(TEXT, 4, 0), None);
    assert_eq!(span_to_cursor("", 0, 0), Some(Span { start: 0, end: 0 }));
    assert_eq!(span_to_cursor("", 1, 0), None);
    assert_eq!(span_to_cursor("a\n", 1, 0), Some(Span { start: 2, end: 2 }));
}

#[test]
fn columns_that_no_position_reaches() {
    assert!(cursor_fits(TEXT, 0, u32::MAX));
    assert!(!cursor_fits(TEXT, 1, u32::MAX));
    assert!(cursor_fits(TEXT, 1, u32::MAX - 3));
    assert!(cursor_fits(TEXT, 4, u32::MAX));
}

#[test]
fn lines_start_in_column_zero() {
    for line in 0..4 {
        let span = span_to_cursor(TEXT, line, 0).unwrap();
        assert_eq!(locate(TEXT, span.start), Some(Location { line, column: 0 }));
    }
}

#[test]
fn the_end_of_the_span_is_the_cursor() {
    for (line, col) in [(0, 2), (1, 2), (3, 3)] {
        let span = span_to_cursor(TEXT, line, col).unwrap();
        assert_eq!(span.end - span.start, col);
        assert_eq!(locate(TEXT, span.end), Some(Location { line, column: col }));
    }
}
