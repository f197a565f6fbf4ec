use move_hover::handler::Handler;
use move_hover::model::{
    Condition, Exp, ExpData, FieldEnv, GlobalEnv, Loc, ModuleEnv, NamedConstantEnv, Operation,
    Pattern, Tok, Token,
};
use move_hover::source::Span;

const SOURCE: &str = "fun f() {
    let p = Pair { left: MAX, right: é };
    let (a, Pair { left: b, right: c }) = g(p.left);
    assert_spec<u64, T>(p);
}
";

fn at(text: &str) -> Span {
    let start = SOURCE.find(text).unwrap() as u32;
    Span { start, end: start + text.len() as u32 }
}

fn loc(text: &str) -> Loc {
    Loc { file: 0, span: at(text) }
}

fn constant(name: &str, value: &str) -> NamedConstantEnv {
    NamedConstantEnv {
        name: name.to_string(),
        loc: loc("fun"),
        ty: "u64".to_string(),
        value: value.to_string(),
        value_debug: value.to_string(),
    }
}

fn env() -> GlobalEnv {
    let module = ModuleEnv {
        name: "m".to_string(),
        full_name: "0x1::m".to_string(),
        loc: loc("fun"),
        use_decls: vec![],
        functions: vec![],
        structs: vec![],
        constants: vec![constant("MIN", "0"), constant("MA", "1"), constant("MAX", "2")],
        spec_blocks: vec![],
    };
    GlobalEnv { files: vec![SOURCE.to_string()], modules: vec![module] }
}

/// A handler whose cursor stands `offset` bytes behind the start of `text`.
fn over(text: &str, offset: u32) -> Handler {
    let index = at(text).start + offset;
    let before = &SOURCE[..index as usize];
    let line = before.matches('\n').count() as u32;
    let col = before.len() - before.rfind('\n').map_or(0, |k| k + 1);
    let mut handler = Handler::new(String::new(), line, col as u32);
    handler.get_mouse_loc(&env(), &loc("fun"));
    assert_eq!(handler.mouse_span.end, index);
    handler
}

fn fields() -> Vec<FieldEnv> {
    vec![
        FieldEnv { name: "left".to_string(), ty: "u64".to_string() },
        FieldEnv { name: "right".to_string(), ty: "vector<u8>".to_string() },
    ]
}

/// The tokens of a struct expression: identifiers, colons and the rest.
fn tokens(text: &str) -> Vec<Token> {
    let mut tokens = vec![];
    let mut start = 0;
    for piece in text.split_inclusive(|c: char| !c.is_alphanumeric()) {
        let word = piece.trim_end_matches(|c: char| !c.is_alphanumeric());
        if !word.is_empty() {
            let end = start + word.len();
            tokens.push(Token { kind: Tok::Identifier, start, end });
        }
        let rest = &piece[word.len()..];
        if !rest.trim().is_empty() {
            let kind = if rest == ":" { Tok::Colon } else { Tok::Other };
            tokens.push(Token { kind, start: start + word.len(), end: start + piece.len() });
        }
        start += piece.len();
    }
    tokens
}

fn pack() -> Operation {
    Operation::Pack {
        ty: Some("Pair".to_string()),
        fields: fields(),
        tokens: tokens("Pair { left: MAX, right: é }"),
    }
}

#[test]
fn the_value_of_a_named_constant() {
    let mut handler = over("MAX", 1);
    handler.process_value(&env(), &loc("MAX"));
    // both names stand there, and the first that is found takes the place
    assert_eq!(handler.capture_items_span, vec![at("MAX")]);
    assert_eq!(handler.get_result().contents, "1");
}

#[test]
fn no_value_at_the_ends_of_a_constant() {
    for offset in [0, 3] {
        let mut handler = over("MAX", offset);
        handler.process_value(&env(), &loc("MAX"));
        assert!(handler.capture_items_span.is_empty());
    }
}

#[test]
fn a_called_function() {
    let op = Operation::MoveFunction { header: "fun g(x: u64): bool".to_string() };
    let mut handler = over("g(p.left)", 1);
    handler.process_call(&env(), &loc("g(p.left)"), &op);
    assert_eq!(handler.capture_items_span, vec![at("g(p.left)")]);
    assert_eq!(handler.get_result().contents, "fun g(x: u64): bool");
    for offset in [0, 9] {
        let mut handler = over("g(p.left)", offset);
        handler.process_call(&env(), &loc("g(p.left)"), &op);
        assert!(handler.capture_items_span.is_empty());
    }
}

#[test]
fn a_selected_field() {
    let op = Operation::Select { field_type: "u64".to_string() };
    for offset in [0, 3, 6] {
        let mut handler = over("p.left", offset);
        handler.process_call(&env(), &loc("p.left"), &op);
        assert_eq!(handler.get_result().contents, "u64");
    }
    let mut handler = over("p.left", 7);
    handler.process_call(&env(), &loc("p.left"), &op);
    assert_eq!(handler.get_result().contents, "null");
}

#[test]
fn a_called_specification_function() {
    let op = Operation::SpecFunction {
        name: "assert_spec".to_string(),
        inst: vec!["u64".to_string(), "T".to_string()],
    };
    let call = "assert_spec<u64, T>(p)";
    let mut handler = over(call, 3);
    handler.process_call(&env(), &loc(call), &op);
    // the type arguments share a place, which the first of them takes
    assert_eq!(handler.capture_items_span, vec![at(call), at("<u64, T>(p)")]);
    assert_eq!(handler.result_candidates, vec!["assert_spec", "u64"]);
    assert_eq!(handler.get_result().contents, "u64");
}

#[test]
fn a_specification_function_without_angle_brackets() {
    let op = Operation::SpecFunction { name: "g".to_string(), inst: vec!["u64".to_string()] };
    let mut handler = over("g(p.left)", 1);
    handler.process_call(&env(), &loc("g(p.left)"), &op);
    assert_eq!(handler.capture_items_span, vec![at("g(p.left)")]);
    assert_eq!(handler.get_result().contents, "g");
}

#[test]
fn a_packed_struct() {
    let text = "Pair { left: MAX, right: é }";
    // on the name of the struct
    let mut handler = over(text, 2);
    handler.process_call(&env(), &loc(text), &pack());
    assert_eq!(handler.result_candidates, vec!["Pair"]);
    // on the name of a field
    let mut handler = over("right: é", 5);
    handler.process_call(&env(), &loc(text), &pack());
    assert_eq!(handler.result_candidates, vec!["Pair", "vector<u8>"]);
    assert_eq!(handler.capture_items_span, vec![at(text), at("right")]);
    assert_eq!(handler.get_result().contents, "vector<u8>");
    // outside
    let mut handler = over("let p", 0);
    handler.process_call(&env(), &loc(text), &pack());
    assert!(handler.result_candidates.is_empty());
}

#[test]
fn a_packed_struct_of_unknown_type() {
    let text = "Pair { left: MAX, right: é }";
    let op = Operation::Pack { ty: None, fields: fields(), tokens: tokens(text) };
    let mut handler = over("left: MAX", 0);
    handler.process_call(&env(), &loc(text), &op);
    assert_eq!(handler.result_candidates, vec!["u64"]);
}

#[test]
fn other_operations() {
    let mut handler = over("g(p.left)", 1);
    handler.process_call(&env(), &loc("g(p.left)"), &Operation::Other);
    assert!(handler.result_candidates.is_empty());
}

fn pattern() -> Pattern {
    let text = "Pair { left: b, right: c }";
    Pattern::Tuple {
        loc: loc("(a, Pair { left: b, right: c })"),
        args: vec![
            Pattern::Var { loc: loc("a, Pair"), ty: Some("bool".to_string()) },
            Pattern::Struct {
                loc: loc(text),
                args: vec![
                    Pattern::Var { loc: loc("b, right: c"), ty: Some("u64".to_string()) },
                    Pattern::Var { loc: loc("c })"), ty: None },
                    Pattern::Other,
                ],
                fields: fields(),
                tokens: tokens(text),
            },
        ],
    }
}

#[test]
fn variables_and_fields_of_a_pattern() {
    let mut handler = over("b, right", 0);
    handler.match_pattern(&env(), &pattern());
    assert_eq!(handler.result_candidates, vec!["u64"]);
    let mut handler = over("right: c", 2);
    handler.match_pattern(&env(), &pattern());
    assert_eq!(handler.result_candidates, vec!["u64", "vector<u8>"]);
    assert_eq!(handler.capture_items_span, vec![at("b, right: c"), Span {
        start: at("right: c").start,
        end: at("right: c").start + 5,
    }]);
    for span in &handler.capture_items_span {
        assert!(span.start <= handler.mouse_span.end && handler.mouse_span.end <= span.end);
    }
    let mut handler = over("let (a", 0);
    handler.match_pattern(&env(), &pattern());
    assert!(handler.result_candidates.is_empty());
}

#[test]
fn local_variables() {
    let node = |name: &str, ty: Option<&str>| Exp {
        nodes: vec![ExpData::LocalVar {
            loc: loc("p.left"),
            name: name.to_string(),
            ty: ty.map(|ty| ty.to_string()),
        }],
    };
    let shown = |exp: &Exp, offset: u32| {
        let mut handler = over("p.left", offset);
        handler.process_expr(&env(), exp);
        handler.get_result().contents
    };
    assert_eq!(shown(&node("p", Some("Pair")), 0), "Pair");
    assert_eq!(shown(&node("p", Some("Pair")), 7), "null");
    assert_eq!(shown(&node("p", None), 0), "null");
    assert_eq!(shown(&node("__update_iter_flag", Some("bool")), 0), "null");
    assert_eq!(shown(&node("__upper_bound_value", Some("u64")), 0), "null");
    assert_eq!(shown(&node("__upper_bound_value_", Some("u64")), 0), "u64");
}

#[test]
fn expressions_inside_out() {
    let exp = Exp {
        nodes: vec![
            ExpData::Temporary { loc: loc("p.left"), ty: Some("Pair".to_string()) },
            ExpData::Call(loc("p.left"), Operation::Select { field_type: "u64".to_string() }),
            ExpData::Call(
                loc("g(p.left)"),
                Operation::MoveFunction { header: "fun g()".to_string() },
            ),
            ExpData::Assign(pattern()),
            ExpData::Block(pattern()),
            ExpData::Value(loc("MAX")),
            ExpData::Other,
        ],
    };
    let mut handler = over("p.left", 2);
    handler.process_expr(&env(), &exp);
    assert_eq!(handler.result_candidates, vec!["Pair", "fun g()"]);
    assert_eq!(handler.get_result().contents, "Pair");
    let mut handler = over("a, Pair", 0);
    handler.process_expr(&env(), &exp);
    assert_eq!(handler.result_candidates, vec!["bool"]);
    let mut handler = over("MAX", 2);
    handler.process_expr(&env(), &exp);
    assert_eq!(handler.result_candidates, vec!["1"]);
}

#[test]
fn conditions_in_order() {
    let exp = |ty: &str, text: &str| Exp {
        nodes: vec![ExpData::Temporary { loc: loc(text), ty: Some(ty.to_string()) }],
    };
    let conditions = vec![
        Condition { exps: vec![exp("u8", "left);"), exp("u16", "p.left);")] },
        Condition { exps: vec![] },
        Condition { exps: vec![exp("u32", "g(p.left)"), exp("u64", "left);")] },
    ];
    let mut handler = over("left);", 1);
    handler.process_conditions(&env(), &conditions);
    assert_eq!(handler.result_candidates, vec!["u8", "u16", "u32"]);
    assert_eq!(handler.get_result().contents, "u8");
}
