use move_hover::handler::{find_smallest_length_index, Handler};
use move_hover::model::{GlobalEnv, Loc};
use move_hover::source::Span;

fn span(start: u32, end: u32) -> Span {
    Span { start, end }
}

fn handler(line: u32, col: u32) -> Handler {
    Handler::new("sources/a.move".to_string(), line, col)
}

#[test]
fn the_first_of_the_shortest_spans() {
    assert_eq!(find_smallest_length_index(&[]), None);
    assert_eq!(find_smallest_length_index(&[span(5, 9)]), Some(0));
    let spans = [span(0, 9), span(3, 5), span(7, 9), span(2, 8)];
    assert_eq!(find_smallest_length_index(&spans), Some(1));
    // a span may run backwards, and is then shorter than any other
    assert_eq!(find_smallest_length_index(&[span(4, 4), span(9, 2)]), Some(1));
    assert_eq!(find_smallest_length_index(&[span(u32::MAX, 0), span(0, u32::MAX)]), Some(0));
}

#[test]
fn a_new_handler_has_found_nothing() {
    let handler = handler(3, 7);
    assert_eq!(handler.filepath, "sources/a.move");
    assert_eq!((handler.line, handler.col), (3, 7));
    assert_eq!(handler.mouse_span, span(0, 0));
    assert!(handler.capture_items_span.is_empty());
    assert!(handler.result_candidates.is_empty());
    assert_eq!(handler.target_module_id, 0);
    assert_eq!(handler.target_function_id, None);
    assert!(handler.visit_fun_or_spec_body());
    assert!(!handler.finished());
}

#[test]
fn spans_are_remembered_once() {
    let mut handler = handler(0, 0);
    assert!(handler.capture_items_span_push(&span(1, 2)));
    assert!(handler.capture_items_span_push(&span(1, 3)));
    assert!(!handler.capture_items_span_push(&span(1, 2)));
    assert_eq!(handler.capture_items_span, vec![span(1, 2), span(1, 3)]);
}

#[test]
fn the_type_of_the_shortest_span_is_shown() {
    let mut handler = handler(0, 0);
    handler.process_type(&Loc { file: 0, span: span(0, 9) }, "u64");
    handler.process_type(&Loc { file: 0, span: span(2, 5) }, "bool");
    handler.process_type(&Loc { file: 1, span: span(2, 5) }, "address");
    handler.process_type(&Loc { file: 0, span: span(3, 6) }, "signer");
    assert_eq!(handler.result_candidates, vec!["u64", "bool", "signer"]);
    assert_eq!(handler.get_result().contents, "bool");
}

#[test]
fn the_result_is_taken() {
    let mut handler = handler(0, 0);
    handler.process_type(&Loc { file: 0, span: span(0, 9) }, "u64");
    assert_eq!(handler.get_result().contents, "u64");
    assert!(handler.capture_items_span.is_empty());
    assert!(handler.result_candidates.is_empty());
    assert_eq!(handler.get_result().contents, "null");
}

#[test]
fn null_is_shown_for_nothing() {
    assert_eq!(handler(0, 0).get_result().contents, "null");
}

#[test]
fn a_text_without_a_span_is_shown() {
    let mut handler = handler(0, 0);
    handler.result_candidates.push("module".to_string());
    assert_eq!(handler.get_result().contents, "module");
}

#[test]
fn a_shortest_span_without_a_text_shows_null() {
    let mut handler = handler(0, 0);
    handler.process_type(&Loc { file: 0, span: span(0, 9) }, "u64");
    assert!(handler.capture_items_span_push(&span(1, 2)));
    assert_eq!(handler.get_result().contents, "null");
}

#[test]
fn adding_the_same_again_changes_nothing() {
    let mut handler = handler(0, 0);
    for _ in 0..2 {
        handler.record(&span(0, 9), "u64");
        handler.record(&span(2, 5), "bool");
    }
    assert_eq!(handler.capture_items_span, vec![span(0, 9), span(2, 5)]);
    assert_eq!(handler.result_candidates, vec!["u64", "bool"]);
}

#[test]
fn the_cursor_stands_strictly_inside() {
    let env = GlobalEnv { files: vec!["abc\nlet é = foo;\n".to_string()], modules: vec![] };
    // the name after the equals sign
    let foo = Loc { file: 0, span: span(13, 16) };
    let inside = |line: u32, col: u32| {
        handler(line, col).check_move_model_loc_contains_mouse_pos(&env, &foo)
    };
    assert!(!inside(1, 8));
    assert!(inside(1, 9));
    assert!(inside(1, 10));
    assert!(!inside(1, 11));
    assert!(!inside(0, 9));
    // not a place between characters, or none at all
    let broken = Loc { file: 0, span: span(9, 16) };
    assert!(!handler(1, 9).check_move_model_loc_contains_mouse_pos(&env, &broken));
    let outside = Loc { file: 0, span: span(4, 99) };
    assert!(!handler(1, 2).check_move_model_loc_contains_mouse_pos(&env, &outside));
}

#[test]
fn the_cursor_is_placed_in_a_file() {
    let env = GlobalEnv {
        files: vec!["a\nbc\n".to_string(), "only one line".to_string()],
        modules: vec![],
    };
    let mut handler = handler(1, 1);
    handler.get_mouse_loc(&env, &Loc { file: 0, span: span(0, 1) });
    assert_eq!(handler.mouse_span, span(2, 3));
    // without such a line the cursor stays
    handler.get_mouse_loc(&env, &Loc { file: 1, span: span(0, 1) });
    assert_eq!(handler.mouse_span, span(2, 3));
}

#[test]
fn the_handler_introduces_itself() {
    let handler = handler(12, 0);
    assert_eq!(handler.introduce("\"a\""), "hover,file:\"a\" line:12 col:0");
    assert_eq!(handler.fmt(), "hover,file:\"sources/a.move\" line:12 col:0");
}
